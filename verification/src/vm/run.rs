use vstd::prelude::*;
use vstd::string::StringSliceAdditionalSpecFns;
use crate::chunk::Op;
use crate::mem::collector::Gc;
use crate::mem::gc::GarbageCollector;
use crate::mem::gc_ref::GcRef;
use crate::obj::obj::ObjData;
use crate::obj::obj::ObjType;
use crate::obj::obj::ObjView;
use crate::text::append_bytes;
use crate::text::append_str;
use crate::value::negate_number;
use crate::value::number_less;
use crate::value::number_negated;
use crate::value::numbers_less;
use crate::value::values_equal;
use crate::value::Value;
use crate::vm::call_frame::CallFrame;
use crate::vm::function_of;
use crate::vm::signal::signal_view;
use crate::vm::signal::ArithmeticOp;
use crate::vm::signal::RuntimeError;
use crate::vm::signal::RuntimeErrorKind;
use crate::vm::signal::RuntimeErrorKindView;
use crate::vm::signal::Signal;
use crate::vm::signal::SignalView;
use crate::vm::signal::TraceLine;
use crate::vm::trace_line;
use crate::vm::Vm;

verus! {

/// The text of string `r`, or no text if `r` is no string.
pub open spec fn string_text(heap: &GarbageCollector, r: GcRef) -> Seq<u8> {
    if heap.live(r.index as int) {
        match heap.object(r.index as int).data.text() {
            Some(text) => text,
            None => Seq::empty(),
        }
    } else {
        Seq::empty()
    }
}

/// How function `r` prints: `<fn NAME>`, or `<script>` if it has no name.
pub open spec fn function_text(heap: &GarbageCollector, r: GcRef) -> Seq<u8> {
    if heap.is_a(r, ObjType::Function) {
        match heap.data(r.index as int)->Function_name {
            Some(name) => "<fn ".spec_bytes() + string_text(heap, name) + ">".spec_bytes(),
            None => "<script>".spec_bytes(),
        }
    } else {
        Seq::empty()
    }
}

/// How closure `r` prints: as its function.
pub open spec fn closure_text(heap: &GarbageCollector, r: GcRef) -> Seq<u8> {
    if heap.is_a(r, ObjType::Closure) {
        function_text(heap, heap.data(r.index as int)->Closure_function)
    } else {
        Seq::empty()
    }
}

/// How class `r` prints: its name.
pub open spec fn class_text(heap: &GarbageCollector, r: GcRef) -> Seq<u8> {
    if heap.is_a(r, ObjType::Class) {
        string_text(heap, heap.data(r.index as int)->Class_name)
    } else {
        Seq::empty()
    }
}

/// How the object `r` prints.
pub open spec fn object_text(heap: &GarbageCollector, r: GcRef) -> Seq<u8> {
    if heap.live(r.index as int) {
        match heap.data(r.index as int) {
            ObjView::BoundMethod { method, .. } => closure_text(heap, method),
            ObjView::Class { .. } => class_text(heap, r),
            ObjView::Closure { .. } => closure_text(heap, r),
            ObjView::Function { .. } => function_text(heap, r),
            ObjView::Instance { klass, .. } => class_text(heap, klass) + " instance".spec_bytes(),
            ObjView::Native { .. } => "<native fn>".spec_bytes(),
            ObjView::String { text } => text,
            ObjView::Upvalue { .. } => "upvalue".spec_bytes(),
        }
    } else {
        Seq::empty()
    }
}

/// What printing the value shows: text, or a number for the host to write
/// out.
pub open spec fn printed(heap: &GarbageCollector, value: Value) -> SignalView {
    match value {
        Value::Bool(b) => SignalView::Print(
            if b {
                "true".spec_bytes()
            } else {
                "false".spec_bytes()
            },
        ),
        Value::Nil => SignalView::Print("nil".spec_bytes()),
        Value::Number(bits) => SignalView::PrintNumber(bits),
        Value::Obj(r) => SignalView::Print(object_text(heap, r)),
    }
}

/// Appends the text of string `r`.
fn append_string(heap: &GarbageCollector, r: GcRef, out: &mut Vec<u8>)
    ensures
        final(out)@ == old(out)@ + string_text(heap, r),
{
    match heap.string(r) {
        Some(string) => append_bytes(out, &string.text),
        None => {
            assert(old(out)@ + Seq::<u8>::empty() =~= old(out)@);
        },
    }
}

fn append_function(heap: &GarbageCollector, r: GcRef, out: &mut Vec<u8>)
    ensures
        final(out)@ == old(out)@ + function_text(heap, r),
{
    match heap.function(r) {
        Some(function) => match function.name {
            Some(name) => {
                append_str(out, "<fn ");
                append_string(heap, name, out);
                append_str(out, ">");
                assert(out@ =~= old(out)@ + function_text(heap, r));
            },
            None => append_str(out, "<script>"),
        },
        None => {
            assert(old(out)@ + Seq::<u8>::empty() =~= old(out)@);
        },
    }
}

fn append_closure(heap: &GarbageCollector, r: GcRef, out: &mut Vec<u8>)
    ensures
        final(out)@ == old(out)@ + closure_text(heap, r),
{
    match heap.closure(r) {
        Some(closure) => append_function(heap, closure.function, out),
        None => {
            assert(old(out)@ + Seq::<u8>::empty() =~= old(out)@);
        },
    }
}

fn append_class(heap: &GarbageCollector, r: GcRef, out: &mut Vec<u8>)
    ensures
        final(out)@ == old(out)@ + class_text(heap, r),
{
    match heap.class(r) {
        Some(class) => append_string(heap, class.name, out),
        None => {
            assert(old(out)@ + Seq::<u8>::empty() =~= old(out)@);
        },
    }
}

/// How the object `r` prints.
pub fn format_object(heap: &GarbageCollector, r: GcRef) -> (text: Vec<u8>)
    ensures
        text@ == object_text(heap, r),
{
    let mut text: Vec<u8> = Vec::new();
    match heap.get(r) {
        Some(object) => match &object.data {
            ObjData::BoundMethod(bound) => append_closure(heap, bound.method, &mut text),
            ObjData::Class(_) => append_class(heap, r, &mut text),
            ObjData::Closure(_) => append_closure(heap, r, &mut text),
            ObjData::Function(_) => append_function(heap, r, &mut text),
            ObjData::Instance(instance) => {
                append_class(heap, instance.klass, &mut text);
                append_str(&mut text, " instance");
            },
            ObjData::Native(_) => append_str(&mut text, "<native fn>"),
            ObjData::String(string) => append_bytes(&mut text, &string.text),
            ObjData::Upvalue(_) => append_str(&mut text, "upvalue"),
        },
        None => {},
    }
    assert(text@ =~= object_text(heap, r));
    text
}

/// What printing `value` shows.
pub fn format_value(heap: &GarbageCollector, value: Value) -> (signal: Signal)
    ensures
        signal@ == printed(heap, value),
{
    match value {
        Value::Bool(b) => {
            let mut text: Vec<u8> = Vec::new();
            if b {
                append_str(&mut text, "true");
            } else {
                append_str(&mut text, "false");
            }
            assert(text@ =~= (if b {
                "true".spec_bytes()
            } else {
                "false".spec_bytes()
            }));
            Signal::Print(text)
        },
        Value::Nil => {
            let mut text: Vec<u8> = Vec::new();
            append_str(&mut text, "nil");
            assert(text@ =~= "nil".spec_bytes());
            Signal::Print(text)
        },
        Value::Number(bits) => Signal::PrintNumber(bits),
        Value::Obj(r) => Signal::Print(format_object(heap, r)),
    }
}

impl<const MAX_FRAMES: usize, const STACK_SIZE: usize> Vm<MAX_FRAMES, STACK_SIZE> {
    fn trace_line_of(&self, frame: CallFrame, innermost: bool) -> (line: TraceLine)
        ensures
            line@ == trace_line(&self.gc.heap, frame, innermost),
    {
        let function = match self.gc.heap.closure(frame.closure) {
            Some(closure) => self.gc.heap.function(closure.function),
            None => None,
        };
        match function {
            Some(function) => {
                let lines = &function.chunk.lines;
                let line: u32 = if innermost {
                    if frame.ip < lines.len() {
                        lines[frame.ip]
                    } else {
                        0
                    }
                } else {
                    if 0 < frame.ip && frame.ip - 1 < lines.len() {
                        lines[frame.ip - 1]
                    } else {
                        0
                    }
                };
                let name = match function.name {
                    Some(name) => match self.gc.heap.string(name) {
                        Some(string) => {
                            let mut text: Vec<u8> = Vec::new();
                            append_bytes(&mut text, &string.text);
                            assert(text@ =~= string.text@);
                            Some(text)
                        },
                        None => None,
                    },
                    None => None,
                };
                TraceLine { line, function: name }
            },
            None => TraceLine { line: 0, function: None },
        }
    }

    /// Stops the program with an error of kind `kind`.
    pub fn fail(&mut self, kind: RuntimeErrorKind) -> (signal: Signal)
        ensures
            Self::failed(old(self), final(self), Some(signal@), kind@),
            old(self).wf() ==> final(self).wf(),
            old(self).sound() ==> final(self).sound(),
    {
        let signal = self.refuse(kind);
        self.reset();
        signal
    }

    /// The error of kind `kind` with the trace of the calls in progress.
    /// The machine stays as it is.
    pub fn refuse(&self, kind: RuntimeErrorKind) -> (signal: Signal)
        ensures
            signal@ == (SignalView::Error { kind: kind@, trace: self.trace() }),
    {
        let mut trace: Vec<TraceLine> = Vec::new();
        let count = self.frames.len();
        let mut k: usize = 0;
        while k < count
            invariant
                k <= count,
                count == self.frames@.len(),
                trace@.len() == k,
                forall|j: int|
                    0 <= j < k ==> (#[trigger] trace@[j])@ == trace_line(
                        &self.gc.heap,
                        self.frames@[count - 1 - j],
                        j == 0,
                    ),
            decreases count - k,
        {
            let frame = *self.frames.get(count - 1 - k);
            let line = self.trace_line_of(frame, k == 0);
            trace.push(line);
            k += 1;
        }
        assert(trace@.map_values(|line: TraceLine| line@) =~= self.trace());
        Signal::Error(RuntimeError { kind, trace })
    }

    /// Moves on to the instruction `width` bytes ahead.
    pub(crate) fn go(&mut self, width: usize)
        requires
            old(self).frames@.len() > 0,
            old(self).frame().ip + width <= usize::MAX,
        ensures
            Self::ip_moved(old(self), final(self), old(self).frame().ip + width),
            final(self).stack == old(self).stack,
            final(self).globals == old(self).globals,
            final(self).open_upvalues == old(self).open_upvalues,
            final(self).gc == old(self).gc,
            final(self).init_string == old(self).init_string,
            old(self).wf() ==> final(self).wf(),
    {
        let last = self.frames.len() - 1;
        let frame = *self.frames.get(last);
        self.frames.set(last, CallFrame { closure: frame.closure, ip: frame.ip + width, slots: frame.slots });
    }

    /// The machine has gone `width` bytes ahead with `value` pushed, or has
    /// stopped because the stack is full.
    pub open spec fn pushes(
        before: &Self,
        after: &Self,
        out: Option<SignalView>,
        value: Value,
        width: int,
    ) -> bool {
        if before.stack@.len() < STACK_SIZE {
            out.is_none() && Self::went_on(
                before,
                after,
                before.stack@.push(value),
                before.frame().ip + width,
            )
        } else {
            Self::failed(before, after, out, RuntimeErrorKindView::StackOverflow)
        }
    }

    pub(crate) fn push_and_go(&mut self, value: Value, width: usize) -> (out: Option<Signal>)
        requires
            old(self).wf(),
            old(self).frames@.len() > 0,
            old(self).frame().ip + width <= usize::MAX,
        ensures
            final(self).wf(),
            Self::pushes(old(self), final(self), signal_view(out), value, width as int),
    {
        if self.stack.is_full() {
            Some(self.fail(RuntimeErrorKind::StackOverflow))
        } else {
            self.stack.push(value);
            self.go(width);
            None
        }
    }

    /// The machine has gone `width` bytes ahead with the top `count` values
    /// of the stack replaced by `value`.
    pub open spec fn replaces(
        before: &Self,
        after: &Self,
        out: Option<SignalView>,
        count: int,
        value: Value,
        width: int,
    ) -> bool {
        out.is_none() && Self::went_on(
            before,
            after,
            before.stack@.take(before.stack@.len() - count).push(value),
            before.frame().ip + width,
        )
    }

    pub(crate) fn replace_and_go(&mut self, count: usize, value: Value, width: usize) -> (out: Option<Signal>)
        requires
            old(self).wf(),
            old(self).frames@.len() > 0,
            old(self).frame().ip + width <= usize::MAX,
            1 <= count <= old(self).stack@.len(),
        ensures
            final(self).wf(),
            Self::replaces(old(self), final(self), signal_view(out), count as int, value, width as int),
    {
        self.stack.pop_n(count);
        self.stack.push(value);
        self.go(width);
        None
    }

    /// The machine has gone `width` bytes ahead with the top `count` values
    /// of the stack dropped.
    pub open spec fn drops(
        before: &Self,
        after: &Self,
        out: Option<SignalView>,
        count: int,
        width: int,
    ) -> bool {
        out.is_none() && Self::went_on(
            before,
            after,
            before.stack@.take(before.stack@.len() - count),
            before.frame().ip + width,
        )
    }

    pub(crate) fn drop_and_go(&mut self, count: usize, width: usize) -> (out: Option<Signal>)
        requires
            old(self).wf(),
            old(self).frames@.len() > 0,
            old(self).frame().ip + width <= usize::MAX,
            count <= old(self).stack@.len(),
        ensures
            final(self).wf(),
            Self::drops(old(self), final(self), signal_view(out), count as int, width as int),
    {
        self.stack.pop_n(count);
        self.go(width);
        None
    }

    /// `Constant`: pushes the constant its operand names.
    pub open spec fn constant_effect(before: &Self, after: &Self, out: Option<SignalView>) -> bool {
        match before.constant_at(1) {
            Some(value) => Self::pushes(before, after, out, value, 2),
            None => Self::failed(before, after, out, RuntimeErrorKindView::Corrupt),
        }
    }

    fn op_constant(&mut self) -> (out: Option<Signal>)
        requires
            old(self).wf(),
        ensures
            final(self).wf(),
            Self::constant_effect(old(self), final(self), signal_view(out)),
    {
        match self.fetch_constant(1) {
            Some(value) => self.push_and_go(value, 2),
            None => Some(self.fail(RuntimeErrorKind::Corrupt)),
        }
    }

    /// `Nil`, `True`, `False`: pushes the literal.
    pub open spec fn literal_effect(
        before: &Self,
        after: &Self,
        out: Option<SignalView>,
        value: Value,
    ) -> bool {
        if before.byte_at(0).is_some() {
            Self::pushes(before, after, out, value, 1)
        } else {
            Self::failed(before, after, out, RuntimeErrorKindView::Corrupt)
        }
    }

    fn op_literal(&mut self, value: Value) -> (out: Option<Signal>)
        requires
            old(self).wf(),
        ensures
            final(self).wf(),
            Self::literal_effect(old(self), final(self), signal_view(out), value),
    {
        match self.fetch(0) {
            Some(_) => self.push_and_go(value, 1),
            None => Some(self.fail(RuntimeErrorKind::Corrupt)),
        }
    }

    /// `Pop`: drops the top of the stack.
    pub open spec fn pop_effect(before: &Self, after: &Self, out: Option<SignalView>) -> bool {
        if before.byte_at(0).is_some() && before.stack@.len() > 0 {
            Self::drops(before, after, out, 1, 1)
        } else {
            Self::failed(before, after, out, RuntimeErrorKindView::Corrupt)
        }
    }

    fn op_pop(&mut self) -> (out: Option<Signal>)
        requires
            old(self).wf(),
        ensures
            final(self).wf(),
            Self::pop_effect(old(self), final(self), signal_view(out)),
    {
        if self.fetch(0).is_some() && self.stack.len() > 0 {
            self.drop_and_go(1, 1)
        } else {
            Some(self.fail(RuntimeErrorKind::Corrupt))
        }
    }

    /// The stack slot that the operand of `GetLocal` or `SetLocal` names:
    /// the operand, counted from the frame's slot zero.
    pub open spec fn local_at(&self) -> Option<int> {
        match self.byte_at(1) {
            Some(slot) => if self.frame().slots + slot < self.stack@.len() {
                Some(self.frame().slots + slot)
            } else {
                None
            },
            None => None,
        }
    }

    fn fetch_local(&self) -> (slot: Option<usize>)
        ensures
            self.local_at() == (match slot {
                Some(slot) => Some(slot as int),
                None => None,
            }),
            slot.is_some() ==> self.frames@.len() > 0 && self.frame().ip + 1 < usize::MAX
                && self.stack@.len() > 0,
    {
        match self.fetch(1) {
            Some(slot) => {
                let base = self.frames.get(self.frames.len() - 1).slots;
                let len = self.stack.len();
                if (slot as usize) < len && base < len - (slot as usize) {
                    Some(base + (slot as usize))
                } else {
                    None
                }
            },
            None => None,
        }
    }

    /// `GetLocal`: pushes the value of the local.
    pub open spec fn get_local_effect(before: &Self, after: &Self, out: Option<SignalView>) -> bool {
        match before.local_at() {
            Some(slot) => Self::pushes(before, after, out, before.stack@[slot], 2),
            None => Self::failed(before, after, out, RuntimeErrorKindView::Corrupt),
        }
    }

    fn op_get_local(&mut self) -> (out: Option<Signal>)
        requires
            old(self).wf(),
        ensures
            final(self).wf(),
            Self::get_local_effect(old(self), final(self), signal_view(out)),
    {
        match self.fetch_local() {
            Some(slot) => {
                let value = *self.stack.get(slot);
                self.push_and_go(value, 2)
            },
            None => Some(self.fail(RuntimeErrorKind::Corrupt)),
        }
    }

    /// `SetLocal`: stores the top of the stack in the local, and leaves it
    /// on the stack.
    pub open spec fn set_local_effect(before: &Self, after: &Self, out: Option<SignalView>) -> bool {
        match before.local_at() {
            Some(slot) => out.is_none() && Self::went_on(
                before,
                after,
                before.stack@.update(slot, before.stack@.last()),
                before.frame().ip + 2,
            ),
            None => Self::failed(before, after, out, RuntimeErrorKindView::Corrupt),
        }
    }

    fn op_set_local(&mut self) -> (out: Option<Signal>)
        requires
            old(self).wf(),
        ensures
            final(self).wf(),
            Self::set_local_effect(old(self), final(self), signal_view(out)),
    {
        match self.fetch_local() {
            Some(slot) => {
                let value = self.peek(0);
                self.stack.set(slot, value);
                self.go(2);
                None
            },
            None => Some(self.fail(RuntimeErrorKind::Corrupt)),
        }
    }

    /// `Equal`: replaces the two values on top by whether they are equal.
    pub open spec fn equal_effect(before: &Self, after: &Self, out: Option<SignalView>) -> bool {
        let n = before.stack@.len();
        if before.byte_at(0).is_some() && n >= 2 {
            Self::replaces(
                before,
                after,
                out,
                2,
                Value::Bool(values_equal(before.stack@[n - 2], before.stack@[n - 1])),
                1,
            )
        } else {
            Self::failed(before, after, out, RuntimeErrorKindView::Corrupt)
        }
    }

    fn op_equal(&mut self) -> (out: Option<Signal>)
        requires
            old(self).wf(),
        ensures
            final(self).wf(),
            Self::equal_effect(old(self), final(self), signal_view(out)),
    {
        if self.fetch(0).is_some() && self.stack.len() >= 2 {
            let right = self.peek(0);
            let left = self.peek(1);
            self.replace_and_go(2, Value::Bool(left == right), 1)
        } else {
            Some(self.fail(RuntimeErrorKind::Corrupt))
        }
    }

    /// `Not`: replaces the top of the stack by whether it is falsey.
    pub open spec fn not_effect(before: &Self, after: &Self, out: Option<SignalView>) -> bool {
        if before.byte_at(0).is_some() && before.stack@.len() >= 1 {
            Self::replaces(before, after, out, 1, Value::Bool(before.stack@.last().falsey()), 1)
        } else {
            Self::failed(before, after, out, RuntimeErrorKindView::Corrupt)
        }
    }

    fn op_not(&mut self) -> (out: Option<Signal>)
        requires
            old(self).wf(),
        ensures
            final(self).wf(),
            Self::not_effect(old(self), final(self), signal_view(out)),
    {
        if self.fetch(0).is_some() && self.stack.len() >= 1 {
            let value = self.peek(0);
            self.replace_and_go(1, Value::Bool(value.is_falsey()), 1)
        } else {
            Some(self.fail(RuntimeErrorKind::Corrupt))
        }
    }

    /// `Negate`: replaces the number on top by its negation; anything else
    /// on top is an error.
    pub open spec fn negate_effect(before: &Self, after: &Self, out: Option<SignalView>) -> bool {
        if before.byte_at(0).is_some() && before.stack@.len() >= 1 {
            match before.stack@.last() {
                Value::Number(bits) => Self::replaces(
                    before,
                    after,
                    out,
                    1,
                    Value::Number(number_negated(bits)),
                    1,
                ),
                _ => Self::failed(before, after, out, RuntimeErrorKindView::OperandMustBeANumber),
            }
        } else {
            Self::failed(before, after, out, RuntimeErrorKindView::Corrupt)
        }
    }

    fn op_negate(&mut self) -> (out: Option<Signal>)
        requires
            old(self).wf(),
        ensures
            final(self).wf(),
            Self::negate_effect(old(self), final(self), signal_view(out)),
    {
        if self.fetch(0).is_some() && self.stack.len() >= 1 {
            match self.peek(0) {
                Value::Number(bits) => self.replace_and_go(1, Value::Number(negate_number(bits)), 1),
                _ => Some(self.fail(RuntimeErrorKind::OperandMustBeANumber)),
            }
        } else {
            Some(self.fail(RuntimeErrorKind::Corrupt))
        }
    }

    /// `Less` and `Greater`: replaces the two numbers on top by whether
    /// the first is less, or greater, than the second; anything else on
    /// top is an error.
    pub open spec fn compare_effect(
        before: &Self,
        after: &Self,
        out: Option<SignalView>,
        greater: bool,
    ) -> bool {
        let n = before.stack@.len();
        if before.byte_at(0).is_some() && n >= 2 {
            match (before.stack@[n - 2], before.stack@[n - 1]) {
                (Value::Number(left), Value::Number(right)) => Self::replaces(
                    before,
                    after,
                    out,
                    2,
                    Value::Bool(
                        if greater {
                            number_less(right, left)
                        } else {
                            number_less(left, right)
                        },
                    ),
                    1,
                ),
                _ => Self::failed(before, after, out, RuntimeErrorKindView::OperandsMustBeNumbers),
            }
        } else {
            Self::failed(before, after, out, RuntimeErrorKindView::Corrupt)
        }
    }

    fn op_compare(&mut self, greater: bool) -> (out: Option<Signal>)
        requires
            old(self).wf(),
        ensures
            final(self).wf(),
            Self::compare_effect(old(self), final(self), signal_view(out), greater),
    {
        if self.fetch(0).is_some() && self.stack.len() >= 2 {
            match (self.peek(1), self.peek(0)) {
                (Value::Number(left), Value::Number(right)) => {
                    let result = if greater {
                        numbers_less(right, left)
                    } else {
                        numbers_less(left, right)
                    };
                    self.replace_and_go(2, Value::Bool(result), 1)
                },
                _ => Some(self.fail(RuntimeErrorKind::OperandsMustBeNumbers)),
            }
        } else {
            Some(self.fail(RuntimeErrorKind::Corrupt))
        }
    }

    /// `Subtract`, `Multiply`, `Divide`: takes the two numbers on top off
    /// the stack and asks the host to combine them; anything else on top is
    /// an error.
    pub open spec fn arithmetic_effect(
        before: &Self,
        after: &Self,
        out: Option<SignalView>,
        op: ArithmeticOp,
    ) -> bool {
        let n = before.stack@.len();
        if before.byte_at(0).is_some() && n >= 2 {
            match (before.stack@[n - 2], before.stack@[n - 1]) {
                (Value::Number(left), Value::Number(right)) => out == Some(
                    SignalView::Arithmetic { op, left, right },
                ) && Self::went_on(before, after, before.stack@.take(n - 2), before.frame().ip + 1),
                _ => Self::failed(before, after, out, RuntimeErrorKindView::OperandsMustBeNumbers),
            }
        } else {
            Self::failed(before, after, out, RuntimeErrorKindView::Corrupt)
        }
    }

    fn op_arithmetic(&mut self, op: ArithmeticOp) -> (out: Option<Signal>)
        requires
            old(self).wf(),
        ensures
            final(self).wf(),
            Self::arithmetic_effect(old(self), final(self), signal_view(out), op),
    {
        if self.fetch(0).is_some() && self.stack.len() >= 2 {
            match (self.peek(1), self.peek(0)) {
                (Value::Number(left), Value::Number(right)) => {
                    self.stack.pop_n(2);
                    self.go(1);
                    Some(Signal::Arithmetic { op, left, right })
                },
                _ => Some(self.fail(RuntimeErrorKind::OperandsMustBeNumbers)),
            }
        } else {
            Some(self.fail(RuntimeErrorKind::Corrupt))
        }
    }

    /// `Print`: takes the top off the stack and hands it to the host to
    /// print.
    pub open spec fn print_effect(before: &Self, after: &Self, out: Option<SignalView>) -> bool {
        let n = before.stack@.len();
        if before.byte_at(0).is_some() && n >= 1 {
            out == Some(printed(&before.gc.heap, before.stack@.last())) && Self::went_on(
                before,
                after,
                before.stack@.take(n - 1),
                before.frame().ip + 1,
            )
        } else {
            Self::failed(before, after, out, RuntimeErrorKindView::Corrupt)
        }
    }

    fn op_print(&mut self) -> (out: Option<Signal>)
        requires
            old(self).wf(),
        ensures
            final(self).wf(),
            Self::print_effect(old(self), final(self), signal_view(out)),
    {
        if self.fetch(0).is_some() && self.stack.len() >= 1 {
            let value = self.peek(0);
            let signal = format_value(&self.gc.heap, value);
            self.stack.pop_n(1);
            self.go(1);
            Some(signal)
        } else {
            Some(self.fail(RuntimeErrorKind::Corrupt))
        }
    }

    /// The two operand bytes, read as one number, the first byte the high
    /// one.
    pub open spec fn short_at(&self) -> Option<int> {
        match (self.byte_at(1), self.byte_at(2)) {
            (Some(high), Some(low)) => Some(high * 256 + low),
            _ => None,
        }
    }

    fn fetch_short(&self) -> (short: Option<u16>)
        ensures
            self.short_at() == (match short {
                Some(short) => Some(short as int),
                None => None,
            }),
            short.is_some() ==> self.frames@.len() > 0 && self.frame().ip + 2 < usize::MAX,
    {
        match (self.fetch(1), self.fetch(2)) {
            (Some(high), Some(low)) => Some((high as u16) * 256 + (low as u16)),
            _ => None,
        }
    }

    /// `Jump`: goes on behind the instruction and as many bytes further as
    /// the operand says.
    pub open spec fn jump_effect(before: &Self, after: &Self, out: Option<SignalView>) -> bool {
        match before.short_at() {
            Some(offset) => if before.frame().ip + 3 + offset <= usize::MAX {
                out.is_none() && Self::went_on(
                    before,
                    after,
                    before.stack@,
                    before.frame().ip + 3 + offset,
                )
            } else {
                Self::failed(before, after, out, RuntimeErrorKindView::Corrupt)
            },
            None => Self::failed(before, after, out, RuntimeErrorKindView::Corrupt),
        }
    }

    fn op_jump(&mut self) -> (out: Option<Signal>)
        requires
            old(self).wf(),
        ensures
            final(self).wf(),
            Self::jump_effect(old(self), final(self), signal_view(out)),
    {
        match self.fetch_short() {
            Some(offset) => {
                let ip = self.frames.get(self.frames.len() - 1).ip;
                if (offset as usize) + 3 <= usize::MAX - ip {
                    self.go(3 + (offset as usize));
                    None
                } else {
                    Some(self.fail(RuntimeErrorKind::Corrupt))
                }
            },
            None => Some(self.fail(RuntimeErrorKind::Corrupt)),
        }
    }

    /// `JumpIfFalse`: jumps if the top of the stack is falsey, and else
    /// goes on behind the instruction; the stack stays as it is.
    pub open spec fn jump_if_false_effect(
        before: &Self,
        after: &Self,
        out: Option<SignalView>,
    ) -> bool {
        match before.short_at() {
            Some(offset) => if before.stack@.len() >= 1 && before.frame().ip + 3 + offset
                <= usize::MAX {
                out.is_none() && Self::went_on(
                    before,
                    after,
                    before.stack@,
                    if before.stack@.last().falsey() {
                        before.frame().ip + 3 + offset
                    } else {
                        before.frame().ip + 3
                    },
                )
            } else {
                Self::failed(before, after, out, RuntimeErrorKindView::Corrupt)
            },
            None => Self::failed(before, after, out, RuntimeErrorKindView::Corrupt),
        }
    }

    fn op_jump_if_false(&mut self) -> (out: Option<Signal>)
        requires
            old(self).wf(),
        ensures
            final(self).wf(),
            Self::jump_if_false_effect(old(self), final(self), signal_view(out)),
    {
        match self.fetch_short() {
            Some(offset) => {
                let ip = self.frames.get(self.frames.len() - 1).ip;
                if self.stack.len() >= 1 && (offset as usize) + 3 <= usize::MAX - ip {
                    if self.peek(0).is_falsey() {
                        self.go(3 + (offset as usize));
                    } else {
                        self.go(3);
                    }
                    None
                } else {
                    Some(self.fail(RuntimeErrorKind::Corrupt))
                }
            },
            None => Some(self.fail(RuntimeErrorKind::Corrupt)),
        }
    }

    /// `Loop`: goes back from behind the instruction as many bytes as the
    /// operand says.
    pub open spec fn loop_effect(before: &Self, after: &Self, out: Option<SignalView>) -> bool {
        match before.short_at() {
            Some(offset) => if offset <= before.frame().ip + 3 {
                out.is_none() && Self::went_on(
                    before,
                    after,
                    before.stack@,
                    before.frame().ip + 3 - offset,
                )
            } else {
                Self::failed(before, after, out, RuntimeErrorKindView::Corrupt)
            },
            None => Self::failed(before, after, out, RuntimeErrorKindView::Corrupt),
        }
    }

    fn op_loop(&mut self) -> (out: Option<Signal>)
        requires
            old(self).wf(),
        ensures
            final(self).wf(),
            Self::loop_effect(old(self), final(self), signal_view(out)),
    {
        match self.fetch_short() {
            Some(offset) => {
                let last = self.frames.len() - 1;
                let frame = *self.frames.get(last);
                if (offset as usize) <= frame.ip + 3 {
                    self.frames.set(
                        last,
                        CallFrame {
                            closure: frame.closure,
                            ip: frame.ip + 3 - (offset as usize),
                            slots: frame.slots,
                        },
                    );
                    None
                } else {
                    Some(self.fail(RuntimeErrorKind::Corrupt))
                }
            },
            None => Some(self.fail(RuntimeErrorKind::Corrupt)),
        }
    }

    /// What one instruction does: what the instruction at the innermost
    /// frame's offset says, or an error if no instruction stands there.
    pub open spec fn stepped(before: &Self, after: &Self, out: Option<SignalView>) -> bool {
        match before.byte_at(0) {
            Some(byte) => match Op::decode(byte) {
                Some(op) => match op {
                    Op::Closure => Self::closure_effect(before, after, out),
                    Op::Constant => Self::constant_effect(before, after, out),
                    Op::False => Self::literal_effect(before, after, out, Value::Bool(false)),
                    Op::Nil => Self::literal_effect(before, after, out, Value::Nil),
                    Op::True => Self::literal_effect(before, after, out, Value::Bool(true)),
                    Op::Jump => Self::jump_effect(before, after, out),
                    Op::JumpIfFalse => Self::jump_if_false_effect(before, after, out),
                    Op::Loop => Self::loop_effect(before, after, out),
                    Op::Pop => Self::pop_effect(before, after, out),
                    Op::Return => Self::return_effect(before, after, out),
                    Op::Call => Self::call_op_effect(before, after, out),
                    Op::Invoke => Self::invoke_effect(before, after, out),
                    Op::SuperInvoke => Self::super_invoke_effect(before, after, out),
                    Op::CloseUpvalue => Self::close_upvalue_effect(before, after, out),
                    Op::DefineGlobal => Self::define_global_effect(before, after, out),
                    Op::GetGlobal => Self::get_global_effect(before, after, out),
                    Op::GetLocal => Self::get_local_effect(before, after, out),
                    Op::GetProperty => Self::get_property_effect(before, after, out),
                    Op::GetSuper => Self::get_super_effect(before, after, out),
                    Op::GetUpvalue => Self::get_upvalue_effect(before, after, out),
                    Op::SetGlobal => Self::set_global_effect(before, after, out),
                    Op::SetLocal => Self::set_local_effect(before, after, out),
                    Op::SetProperty => Self::set_property_effect(before, after, out),
                    Op::SetUpvalue => Self::set_upvalue_effect(before, after, out),
                    Op::Equal => Self::equal_effect(before, after, out),
                    Op::Greater => Self::compare_effect(before, after, out, true),
                    Op::Less => Self::compare_effect(before, after, out, false),
                    Op::Add => Self::add_effect(before, after, out),
                    Op::Divide => Self::arithmetic_effect(before, after, out, ArithmeticOp::Divide),
                    Op::Multiply => Self::arithmetic_effect(
                        before,
                        after,
                        out,
                        ArithmeticOp::Multiply,
                    ),
                    Op::Negate => Self::negate_effect(before, after, out),
                    Op::Subtract => Self::arithmetic_effect(
                        before,
                        after,
                        out,
                        ArithmeticOp::Subtract,
                    ),
                    Op::Not => Self::not_effect(before, after, out),
                    Op::Class => Self::class_effect(before, after, out),
                    Op::Inherit => Self::inherit_effect(before, after, out),
                    Op::Method => Self::method_effect(before, after, out),
                    Op::Print => Self::print_effect(before, after, out),
                },
                None => Self::failed(before, after, out, RuntimeErrorKindView::Corrupt),
            },
            None => Self::failed(before, after, out, RuntimeErrorKindView::Corrupt),
        }
    }

    /// Runs one instruction. Hands back a signal if the machine has
    /// something to tell its host, and nothing if it simply goes on.
    pub fn step(&mut self) -> (out: Option<Signal>)
        requires
            old(self).wf(),
        ensures
            final(self).wf(),
            Self::stepped(old(self), final(self), signal_view(out)),
            old(self).sound() ==> final(self).sound(),
    {
        let out = self.dispatch();
        proof {
            if old(self).sound() {
                Self::lemma_stepped_sound(old(self), self, signal_view(out));
            }
        }
        out
    }

    /// Runs the instruction at the innermost frame's offset.
    fn dispatch(&mut self) -> (out: Option<Signal>)
        requires
            old(self).wf(),
        ensures
            final(self).wf(),
            Self::stepped(old(self), final(self), signal_view(out)),
    {
        let op = match self.fetch(0) {
            Some(byte) => Op::from_byte(byte),
            None => None,
        };
        match op {
            Some(op) => match op {
                Op::Closure => self.op_closure(),
                Op::Constant => self.op_constant(),
                Op::False => self.op_literal(Value::Bool(false)),
                Op::Nil => self.op_literal(Value::Nil),
                Op::True => self.op_literal(Value::Bool(true)),
                Op::Jump => self.op_jump(),
                Op::JumpIfFalse => self.op_jump_if_false(),
                Op::Loop => self.op_loop(),
                Op::Pop => self.op_pop(),
                Op::Return => self.op_return(),
                Op::Call => self.op_call(),
                Op::Invoke => self.op_invoke(),
                Op::SuperInvoke => self.op_super_invoke(),
                Op::CloseUpvalue => self.op_close_upvalue(),
                Op::DefineGlobal => self.op_define_global(),
                Op::GetGlobal => self.op_get_global(),
                Op::GetLocal => self.op_get_local(),
                Op::GetProperty => self.op_get_property(),
                Op::GetSuper => self.op_get_super(),
                Op::GetUpvalue => self.op_get_upvalue(),
                Op::SetGlobal => self.op_set_global(),
                Op::SetLocal => self.op_set_local(),
                Op::SetProperty => self.op_set_property(),
                Op::SetUpvalue => self.op_set_upvalue(),
                Op::Equal => self.op_equal(),
                Op::Greater => self.op_compare(true),
                Op::Less => self.op_compare(false),
                Op::Add => self.op_add(),
                Op::Divide => self.op_arithmetic(ArithmeticOp::Divide),
                Op::Multiply => self.op_arithmetic(ArithmeticOp::Multiply),
                Op::Negate => self.op_negate(),
                Op::Subtract => self.op_arithmetic(ArithmeticOp::Subtract),
                Op::Not => self.op_not(),
                Op::Class => self.op_class(),
                Op::Inherit => self.op_inherit(),
                Op::Method => self.op_method(),
                Op::Print => self.op_print(),
            },
            None => Some(self.fail(RuntimeErrorKind::Corrupt)),
        }
    }

    /// The machine `now` is what `steps` instructions, none of which had
    /// anything to tell the host, have made of the machine `before`.
    pub open spec fn advanced(before: &Self, now: &Self, steps: nat) -> bool
        decreases steps,
    {
        if steps == 0 {
            *now == *before
        } else {
            exists|middle: Self|
                Self::advanced(before, &middle, (steps - 1) as nat) && #[trigger] Self::stepped(
                    &middle,
                    now,
                    None,
                )
        }
    }

    /// What running for at most `fuel` instructions does: the machine
    /// goes on, instruction after instruction, until one has something to
    /// tell the host, or until the fuel is used up.
    pub open spec fn ran(before: &Self, after: &Self, signal: SignalView, fuel: usize) -> bool {
        exists|steps: nat, last: Self|
            steps <= fuel && #[trigger] Self::advanced(before, &last, steps) && (if signal
                == SignalView::OutOfFuel {
                steps == fuel && *after == last
            } else {
                steps < fuel && Self::stepped(&last, after, Some(signal))
            })
    }

    /// Runs until the machine has something to tell its host, but no more
    /// than `fuel` instructions.
    pub fn run(&mut self, fuel: usize) -> (signal: Signal)
        requires
            old(self).wf(),
        ensures
            final(self).wf(),
            Self::ran(old(self), final(self), signal@, fuel),
            old(self).sound() ==> final(self).sound(),
    {
        let mut used: usize = 0;
        while used < fuel
            invariant
                used <= fuel,
                self.wf(),
                Self::advanced(old(self), self, used as nat),
                old(self).sound() ==> self.sound(),
            decreases fuel - used,
        {
            let ghost last = *self;
            match self.step() {
                Some(signal) => {
                    proof {
                        assert(signal@ != SignalView::OutOfFuel) by {
                            Self::lemma_step_never_runs_out(&last, self, signal@);
                        }
                        assert(Self::advanced(old(self), &last, used as nat));
                    }
                    return signal;
                },
                None => {
                    proof {
                        assert(Self::stepped(&last, self, None));
                    }
                },
            }
            used += 1;
        }
        proof {
            assert(Self::advanced(old(self), self, used as nat));
        }
        Signal::OutOfFuel
    }

    /// No instruction tells the host that the fuel is used up.
    pub proof fn lemma_step_never_runs_out(before: &Self, after: &Self, signal: SignalView)
        requires
            Self::stepped(before, after, Some(signal)),
        ensures
            signal != SignalView::OutOfFuel,
    {
    }

    /// Takes the value the host has computed, for two numbers or for a
    /// native function, onto the stack.
    pub fn resume(&mut self, value: Value) -> (out: Option<Signal>)
        requires
            old(self).wf(),
        ensures
            final(self).wf(),
            old(self).stack@.len() < STACK_SIZE ==> out.is_none() && final(self).stack@ == old(self).stack@.push(value) && final(self).frames == old(self).frames && final(self).globals
                == old(self).globals && final(self).open_upvalues == old(self).open_upvalues
                && final(self).gc == old(self).gc && final(self).init_string == old(self).init_string,
            old(self).stack@.len() >= STACK_SIZE ==> Self::failed(
                old(self),
                final(self),
                signal_view(out),
                RuntimeErrorKindView::StackOverflow,
            ),
            old(self).sound() && crate::vm::sound::value_live(old(self).gc.heap.slots@, value)
                ==> final(self).sound(),
    {
        if self.stack.is_full() {
            let signal = self.fail(RuntimeErrorKind::StackOverflow);
            proof {
                if old(self).sound() {
                    Self::lemma_failed_sound(
                        old(self),
                        self,
                        Some(signal@),
                        RuntimeErrorKindView::StackOverflow,
                    );
                }
            }
            Some(signal)
        } else {
            self.stack.push(value);
            proof {
                if old(self).sound() && crate::vm::sound::value_live(
                    old(self).gc.heap.slots@,
                    value,
                ) {
                    assert forall|r: GcRef| #[trigger] self.is_root(r) implies self.gc.heap.live(
                        r.index as int,
                    ) by {
                        if self.stack@.contains(Value::Obj(r)) {
                            let k = choose|k: int|
                                0 <= k < self.stack@.len() && self.stack@[k] == Value::Obj(r);
                            if k < old(self).stack@.len() {
                                assert(old(self).stack@[k] == Value::Obj(r));
                                assert(old(self).stack@.contains(Value::Obj(r)));
                                assert(old(self).is_root(r));
                            }
                        } else {
                            assert(old(self).is_root(r));
                        }
                    }
                }
            }
            None
        }
    }
}

} // verus!
