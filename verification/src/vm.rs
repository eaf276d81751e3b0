//! The virtual machine: a value stack, a stack of call frames, the globals
//! and the list of open upvalues, over the collector's heap.

pub mod call;
pub mod call_frame;
pub mod closure;
pub mod interpret;
pub mod memory;
pub mod object;
pub mod run;
pub mod signal;
pub mod sound;
pub mod upvalue;

use vstd::prelude::*;
use vstd::string::StringSliceAdditionalSpecFns;
use crate::mem::collector::Gc;
use crate::mem::gc::GarbageCollector;
use crate::mem::gc_map::GcMap;
use crate::mem::gc_ref::GcRef;
use crate::mem::inline_vec::InlineVec;
use crate::obj::obj::ObjData;
use crate::obj::obj::ObjType;
use crate::obj::obj::ObjView;
use crate::obj::obj_function::ObjFunction;
use crate::text::bytes_of;
use crate::value::Value;
use crate::vm::call_frame::CallFrame;
use crate::vm::signal::RuntimeError;
use crate::vm::signal::RuntimeErrorKind;
use crate::vm::signal::RuntimeErrorKindView;
use crate::vm::signal::Signal;
use crate::vm::signal::SignalView;
use crate::vm::signal::TraceLine;
use crate::vm::signal::TraceLineView;

verus! {

/// An entry of the list of open upvalues: a stack slot, and the upvalue
/// that stands for it.
#[derive(Clone, Copy, Debug)]
pub struct OpenUpvalue {
    pub slot: usize,
    pub upvalue: GcRef,
}

/// The list is in descending order of stack slot, without repetition.
pub open spec fn upvalues_sorted(list: Seq<OpenUpvalue>) -> bool {
    forall|i: int, j: int| 0 <= i < j < list.len() ==> list[i].slot > list[j].slot
}

/// Whether a machine with these parts holds the reference `r` itself: on
/// the stack, in a frame, in the list of open upvalues, in the globals, or
/// as the name `init`.
pub open spec fn machine_root(
    stack: Seq<Value>,
    frames: Seq<CallFrame>,
    open_upvalues: Seq<OpenUpvalue>,
    globals: Map<usize, Value>,
    init_string: GcRef,
    r: GcRef,
) -> bool {
    ||| stack.contains(Value::Obj(r))
    ||| exists|i: int| 0 <= i < frames.len() && (#[trigger] frames[i]).closure == r
    ||| exists|i: int| 0 <= i < open_upvalues.len() && (#[trigger] open_upvalues[i]).upvalue == r
    ||| globals.contains_key(r.index)
    ||| exists|k: usize| globals.contains_key(k) && #[trigger] globals[k] == Value::Obj(r)
    ||| r == init_string
}

/// The references a machine with these parts holds itself.
pub open spec fn machine_roots(
    stack: Seq<Value>,
    frames: Seq<CallFrame>,
    open_upvalues: Seq<OpenUpvalue>,
    globals: Map<usize, Value>,
    init_string: GcRef,
) -> Set<GcRef> {
    Set::new(|r: GcRef| machine_root(stack, frames, open_upvalues, globals, init_string, r))
}

/// The function a closure runs, if `closure` is a closure over a function.
pub open spec fn function_of(heap: &GarbageCollector, closure: GcRef) -> Option<GcRef> {
    if heap.is_a(closure, ObjType::Closure) {
        let function = heap.data(closure.index as int)->Closure_function;
        if heap.is_a(function, ObjType::Function) {
            Some(function)
        } else {
            None
        }
    } else {
        None
    }
}

/// The line of the stack trace for one frame. The innermost frame stands at
/// the instruction that failed, every other just behind its call.
pub open spec fn trace_line(heap: &GarbageCollector, frame: CallFrame, innermost: bool) -> TraceLineView {
    match function_of(heap, frame.closure) {
        Some(function) => {
            let lines = heap.data(function.index as int)->Function_lines;
            let at = if innermost {
                frame.ip as int
            } else {
                frame.ip - 1
            };
            TraceLineView {
                line: if 0 <= at < lines.len() {
                    lines[at]
                } else {
                    0
                },
                function: match heap.data(function.index as int)->Function_name {
                    Some(name) => if heap.live(name.index as int) {
                        heap.object(name.index as int).data.text()
                    } else {
                        None
                    },
                    None => None,
                },
            }
        },
        None => TraceLineView { line: 0, function: None },
    }
}

/// The machine. `MAX_FRAMES` bounds the depth of calls, `STACK_SIZE` the
/// number of values on the stack.
pub struct Vm<const MAX_FRAMES: usize, const STACK_SIZE: usize> {
    pub frames: InlineVec<MAX_FRAMES, CallFrame>,
    pub stack: InlineVec<STACK_SIZE, Value>,
    pub globals: GcMap<Value>,
    pub open_upvalues: Vec<OpenUpvalue>,
    pub gc: Gc,
    /// The name `init`, under which a class keeps its initializer.
    pub init_string: GcRef,
}

impl<const MAX_FRAMES: usize, const STACK_SIZE: usize> Vm<MAX_FRAMES, STACK_SIZE> {
    /// The machine is consistent: the heap is, the stacks are within their
    /// bounds, and the open upvalues are in descending order of slot.
    pub open spec fn wf(&self) -> bool {
        &&& self.gc.wf()
        &&& self.stack.wf()
        &&& self.frames.wf()
        &&& upvalues_sorted(self.open_upvalues@)
    }

    /// Whether the machine holds the reference `r` itself: on the stack, in
    /// a frame, in the list of open upvalues or in the globals.
    pub open spec fn is_root(&self, r: GcRef) -> bool {
        machine_root(
            self.stack@,
            self.frames@,
            self.open_upvalues@,
            self.globals@,
            self.init_string,
            r,
        )
    }

    /// The references the machine holds itself.
    pub open spec fn roots(&self) -> Set<GcRef> {
        machine_roots(
            self.stack@,
            self.frames@,
            self.open_upvalues@,
            self.globals@,
            self.init_string,
        )
    }

    /// The innermost frame.
    pub open spec fn frame(&self) -> CallFrame {
        self.frames@.last()
    }

    /// The function the innermost frame runs, if there is a frame and its
    /// closure is in order.
    pub open spec fn function(&self) -> Option<GcRef> {
        if self.frames@.len() > 0 {
            function_of(&self.gc.heap, self.frame().closure)
        } else {
            None
        }
    }

    /// The code of the function that is running.
    pub open spec fn code(&self) -> Seq<u8> {
        match self.function() {
            Some(f) => self.gc.heap.data(f.index as int)->Function_bytecode,
            None => Seq::empty(),
        }
    }

    /// The constants of the function that is running.
    pub open spec fn constants(&self) -> Seq<Value> {
        match self.function() {
            Some(f) => self.gc.heap.data(f.index as int)->Function_constants,
            None => Seq::empty(),
        }
    }

    /// The byte of code `offset` bytes after the next instruction's first.
    pub open spec fn byte_at(&self, offset: int) -> Option<u8> {
        let at = self.frame().ip + offset;
        if self.function().is_some() && 0 <= at < self.code().len() {
            Some(self.code()[at])
        } else {
            None
        }
    }

    /// The constant that the byte at `offset` names.
    pub open spec fn constant_at(&self, offset: int) -> Option<Value> {
        match self.byte_at(offset) {
            Some(index) => if index < self.constants().len() {
                Some(self.constants()[index as int])
            } else {
                None
            },
            None => None,
        }
    }

    /// The string that the byte at `offset` names, if the constant it names
    /// is a string.
    pub open spec fn name_at(&self, offset: int) -> Option<GcRef> {
        match self.constant_at(offset) {
            Some(Value::Obj(r)) => if self.gc.heap.is_a(r, ObjType::String) {
                Some(r)
            } else {
                None
            },
            _ => None,
        }
    }

    /// The text of the string `r`.
    pub open spec fn text_of(&self, r: GcRef) -> Seq<u8> {
        match self.gc.heap.object(r.index as int).data.text() {
            Some(text) => text,
            None => Seq::empty(),
        }
    }

    /// The stack trace: one line for each frame, innermost first.
    pub open spec fn trace(&self) -> Seq<TraceLineView> {
        Seq::new(
            self.frames@.len(),
            |k: int| trace_line(&self.gc.heap, self.frames@[self.frames@.len() - 1 - k], k == 0),
        )
    }

    /// The machine has stopped on an error of kind `kind`: it reports the
    /// error with the trace of the calls that were in progress, and its
    /// stacks are empty.
    pub open spec fn failed(
        before: &Self,
        after: &Self,
        out: Option<SignalView>,
        kind: RuntimeErrorKindView,
    ) -> bool {
        &&& out == Some(SignalView::Error { kind, trace: before.trace() })
        &&& after.stack@.len() == 0
        &&& after.frames@.len() == 0
        &&& after.open_upvalues@.len() == 0
        &&& after.globals@ == before.globals@
        &&& after.gc == before.gc
        &&& after.init_string == before.init_string
    }

    /// The machine has refused to go on, with an error of kind `kind`: it
    /// reports the error with the trace of the calls in progress, and is
    /// as it was.
    pub open spec fn refused(
        before: &Self,
        after: &Self,
        out: Option<SignalView>,
        kind: RuntimeErrorKindView,
    ) -> bool {
        &&& out == Some(SignalView::Error { kind, trace: before.trace() })
        &&& *after == *before
    }

    /// The machine reports an error of kind `kind`: it has stopped, with
    /// its stacks empty, if `reset`; else it is as it was.
    pub open spec fn stopped(
        before: &Self,
        after: &Self,
        out: Option<SignalView>,
        kind: RuntimeErrorKindView,
        reset: bool,
    ) -> bool {
        if reset {
            Self::failed(before, after, out, kind)
        } else {
            Self::refused(before, after, out, kind)
        }
    }

    /// The innermost frame has gone on to the instruction at `ip`, and the
    /// frames are as they were otherwise.
    pub open spec fn ip_moved(before: &Self, after: &Self, ip: int) -> bool {
        &&& before.frames@.len() > 0
        &&& after.frames@ == before.frames@.update(
            before.frames@.len() - 1,
            CallFrame { ip: ip as usize, ..before.frame() },
        )
    }

    /// The machine has gone on to the instruction at `ip` of the same
    /// function with the stack `stack`, and nothing else has changed.
    pub open spec fn went_on(before: &Self, after: &Self, stack: Seq<Value>, ip: int) -> bool {
        &&& after.stack@ == stack
        &&& Self::ip_moved(before, after, ip)
        &&& after.open_upvalues@ == before.open_upvalues@
        &&& after.globals@ == before.globals@
        &&& after.gc == before.gc
        &&& after.init_string == before.init_string
    }

    /// A machine with an empty heap, but for the name `init`.
    pub fn new() -> (vm: Self)
        ensures
            vm.wf(),
            vm.stack@.len() == 0,
            vm.frames@.len() == 0,
            vm.open_upvalues@.len() == 0,
            vm.globals@ == Map::<usize, Value>::empty(),
            vm.gc.heap.is_a(vm.init_string, ObjType::String),
            vm.text_of(vm.init_string) == "init".spec_bytes(),
            vm.sound(),
    {
        let mut gc = Gc::new();
        let ghost empty = gc;
        let init = bytes_of("init");
        let init_string = gc.place_string(&init);
        proof {
            assert(!empty.heap.table().contains_key(init@)) by {
                reveal(crate::mem::gc::strings_sound);
            }
            gc.lemma_interned_keeps_closed(&empty, init@, init_string);
        }
        Vm {
            frames: InlineVec::new(),
            stack: InlineVec::new(),
            globals: GcMap::new(),
            open_upvalues: Vec::new(),
            gc,
            init_string,
        }
    }

    /// Empties the stacks.
    pub fn reset(&mut self)
        ensures
            final(self).stack@.len() == 0,
            final(self).frames@.len() == 0,
            final(self).open_upvalues@.len() == 0,
            final(self).globals == old(self).globals,
            final(self).gc == old(self).gc,
            final(self).init_string == old(self).init_string,
            old(self).wf() ==> final(self).wf(),
            old(self).sound() ==> final(self).sound(),
    {
        self.stack.clear();
        self.frames.clear();
        self.open_upvalues.clear();
        proof {
            if old(self).sound() {
                assert forall|r: GcRef| #[trigger] self.is_root(r) implies self.gc.heap.live(
                    r.index as int,
                ) by {
                    assert(!self.stack@.contains(Value::Obj(r)));
                    assert(old(self).is_root(r));
                }
            }
        }
    }

    /// The value `index` places below the top of the stack.
    pub fn peek(&self, index: usize) -> (value: Value)
        requires
            index < self.stack@.len(),
        ensures
            value == self.stack@[self.stack@.len() - 1 - index],
    {
        *self.stack.get(self.stack.len() - 1 - index)
    }

    /// Takes the top value off the stack.
    pub fn pop(&mut self) -> (value: Value)
        requires
            old(self).stack@.len() > 0,
        ensures
            value == old(self).stack@.last(),
            final(self).stack@ == old(self).stack@.drop_last(),
            final(self).frames == old(self).frames,
            final(self).globals == old(self).globals,
            final(self).open_upvalues == old(self).open_upvalues,
            final(self).gc == old(self).gc,
            final(self).init_string == old(self).init_string,
    {
        match self.stack.pop() {
            Some(value) => value,
            None => Value::Nil,
        }
    }

    /// Puts `value` on top of the stack. There must be room.
    pub fn push(&mut self, value: Value)
        requires
            old(self).stack@.len() < STACK_SIZE,
        ensures
            final(self).stack@ == old(self).stack@.push(value),
            final(self).frames == old(self).frames,
            final(self).globals == old(self).globals,
            final(self).open_upvalues == old(self).open_upvalues,
            final(self).gc == old(self).gc,
            final(self).init_string == old(self).init_string,
    {
        self.stack.push(value);
    }

    /// The function that is running.
    pub fn running(&self) -> (function: Option<&ObjFunction>)
        ensures
            function.is_some() == self.function().is_some(),
            function.is_some() ==> self.gc.heap.object(self.function().unwrap().index as int).data
                == ObjData::Function(*function.unwrap()),
    {
        if self.frames.len() == 0 {
            return None;
        }
        let frame = self.frames.get(self.frames.len() - 1);
        match self.gc.heap.closure(frame.closure) {
            Some(closure) => self.gc.heap.function(closure.function),
            None => None,
        }
    }

    /// The byte of code `offset` bytes after the next instruction's first.
    pub fn fetch(&self, offset: usize) -> (byte: Option<u8>)
        ensures
            byte == self.byte_at(offset as int),
            byte.is_some() ==> self.frames@.len() > 0 && self.frame().ip + offset < usize::MAX,
    {
        match self.running() {
            Some(function) => {
                let ip = self.frames.get(self.frames.len() - 1).ip;
                let code = &function.chunk.bytecode;
                if offset < code.len() && ip < code.len() - offset {
                    Some(code[ip + offset])
                } else {
                    None
                }
            },
            None => None,
        }
    }

    /// The constant that the byte at `offset` names.
    pub fn fetch_constant(&self, offset: usize) -> (value: Option<Value>)
        ensures
            value == self.constant_at(offset as int),
            value.is_some() ==> self.frames@.len() > 0 && self.frame().ip + offset < usize::MAX,
    {
        match self.fetch(offset) {
            Some(index) => match self.running() {
                Some(function) => {
                    let constants = &function.chunk.constants;
                    if (index as usize) < constants.len() {
                        Some(constants[index as usize])
                    } else {
                        None
                    }
                },
                None => None,
            },
            None => None,
        }
    }

    /// The string that the byte at `offset` names.
    pub fn fetch_name(&self, offset: usize) -> (name: Option<GcRef>)
        ensures
            name == self.name_at(offset as int),
            name.is_some() ==> self.frames@.len() > 0 && self.frame().ip + offset < usize::MAX,
    {
        match self.fetch_constant(offset) {
            Some(Value::Obj(r)) => match self.gc.heap.kind(r) {
                Some(ObjType::String) => Some(r),
                _ => None,
            },
            _ => None,
        }
    }
}

} // verus!
