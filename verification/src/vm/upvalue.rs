use vstd::prelude::*;
use crate::mem::collector::Gc;
use crate::mem::gc::lemma_payload_view;
use crate::mem::gc_ref::GcRef;
use crate::obj::obj::Obj;
use crate::obj::obj::ObjData;
use crate::obj::obj::ObjType;
use crate::obj::obj::ObjView;
use crate::obj::obj_upvalue::ObjUpvalue;
use crate::value::Value;
use crate::vm::signal::signal_view;
use crate::vm::signal::RuntimeErrorKind;
use crate::vm::signal::RuntimeErrorKindView;
use crate::vm::signal::Signal;
use crate::vm::signal::SignalView;
use crate::vm::upvalues_sorted;
use crate::vm::OpenUpvalue;
use crate::vm::Vm;

verus! {

/// The value in stack slot `slot`; nil if the stack does not reach so far.
pub open spec fn slot_value(stack: Seq<Value>, slot: usize) -> Value {
    if slot < stack.len() {
        stack[slot as int]
    } else {
        Value::Nil
    }
}

/// The heap after the upvalue of `entry` is closed: the upvalue owns the
/// value that stood in its stack slot.
pub open spec fn close_one(
    heap: Seq<Option<(Obj, ObjView)>>,
    entry: OpenUpvalue,
    stack: Seq<Value>,
) -> Seq<Option<(Obj, ObjView)>> {
    let i = entry.upvalue.index as int;
    if 0 <= i < heap.len() && heap[i].is_some() && heap[i].unwrap().1 is Upvalue {
        heap.update(
            i,
            Some(
                (
                    heap[i].unwrap().0,
                    ObjView::Upvalue { location: None, closed: slot_value(stack, entry.slot) },
                ),
            ),
        )
    } else {
        heap
    }
}

/// The heap after the upvalues of `entries` are closed, one after another.
pub open spec fn close_all(
    heap: Seq<Option<(Obj, ObjView)>>,
    entries: Seq<OpenUpvalue>,
    stack: Seq<Value>,
) -> Seq<Option<(Obj, ObjView)>>
    decreases entries.len(),
{
    if entries.len() == 0 {
        heap
    } else {
        close_one(close_all(heap, entries.drop_last(), stack), entries.last(), stack)
    }
}

/// How many entries at the head of the list stand for slot `boundary` or
/// a slot above it.
pub open spec fn closing_count(list: Seq<OpenUpvalue>, boundary: usize) -> nat
    decreases list.len(),
{
    if list.len() > 0 && list[0].slot >= boundary {
        1 + closing_count(list.skip(1), boundary)
    } else {
        0
    }
}

/// No more entries stand at the head of a list than the list has.
pub proof fn lemma_closing_count_bound(list: Seq<OpenUpvalue>, boundary: usize)
    ensures
        closing_count(list, boundary) <= list.len(),
    decreases list.len(),
{
    if list.len() > 0 && list[0].slot >= boundary {
        lemma_closing_count_bound(list.skip(1), boundary);
    }
}

impl<const MAX_FRAMES: usize, const STACK_SIZE: usize> Vm<MAX_FRAMES, STACK_SIZE> {
    /// In a machine that is in order, an upvalue earlier in the list
    /// stands for a higher stack slot than one later.
    pub proof fn lemma_open_upvalues_descend(&self, i: int, j: int)
        requires
            self.wf(),
            0 <= i < j < self.open_upvalues@.len(),
        ensures
            self.open_upvalues@[i].slot > self.open_upvalues@[j].slot,
    {
    }

    /// The upvalues for slot `boundary` and the slots above it are closed
    /// and gone from the list; nothing else in the heap has changed.
    pub open spec fn upvalues_closed(before: &Self, after: &Self, boundary: usize) -> bool {
        let k = closing_count(before.open_upvalues@, boundary) as int;
        &&& after.open_upvalues@ == before.open_upvalues@.skip(k)
        &&& after.gc.heap@ == close_all(
            before.gc.heap@,
            before.open_upvalues@.take(k),
            before.stack@,
        )
        &&& after.gc.heap.table() == before.gc.heap.table()
        &&& after.gc.heap.objects == before.gc.heap.objects
        &&& after.gc.heap.free@ == before.gc.heap.free@
        &&& after.gc.heap.chain@ == before.gc.heap.chain@
        &&& after.gc.bytes_allocated == before.gc.bytes_allocated
        &&& after.gc.next_gc == before.gc.next_gc
        &&& after.gc.stress == before.gc.stress
        &&& after.gc.gray == before.gc.gray
    }

    /// Closes every open upvalue for slot `boundary` or a slot above it:
    /// the upvalue takes the value from the stack, and leaves the list.
    pub fn close_upvalues(&mut self, boundary: usize)
        requires
            old(self).wf(),
        ensures
            final(self).wf(),
            Self::upvalues_closed(old(self), final(self), boundary),
            forall|j: int|
                0 <= j < final(self).open_upvalues@.len() ==> (
                #[trigger] final(self).open_upvalues@[j]).slot < boundary,
            final(self).stack == old(self).stack,
            final(self).frames == old(self).frames,
            final(self).globals == old(self).globals,
            final(self).init_string == old(self).init_string,
            old(self).sound() ==> final(self).sound(),
    {
        let ghost list = self.open_upvalues@;
        let ghost heap0 = self.gc.heap@;
        let mut i: usize = 0;
        proof {
            assert(list.skip(0) =~= list);
            assert(list.take(0) =~= Seq::<OpenUpvalue>::empty());
        }
        while i < self.open_upvalues.len() && self.open_upvalues[i].slot >= boundary
            invariant
                i <= list.len(),
                self.gc.wf(),
                self.open_upvalues@ == list,
                list == old(self).open_upvalues@,
                heap0 == old(self).gc.heap@,
                self.stack == old(self).stack,
                self.frames == old(self).frames,
                self.globals == old(self).globals,
                self.init_string == old(self).init_string,
                closing_count(list, boundary) == i + closing_count(list.skip(i as int), boundary),
                self.gc.heap@ == close_all(heap0, list.take(i as int), self.stack@),
                self.gc.heap.table() == old(self).gc.heap.table(),
                self.gc.heap.objects == old(self).gc.heap.objects,
                self.gc.heap.free@ == old(self).gc.heap.free@,
                self.gc.heap.chain@ == old(self).gc.heap.chain@,
                self.gc.bytes_allocated == old(self).gc.bytes_allocated,
                self.gc.next_gc == old(self).gc.next_gc,
                self.gc.stress == old(self).gc.stress,
                self.gc.gray == old(self).gc.gray,
            decreases list.len() - i,
        {
            let entry = self.open_upvalues[i];
            let value = if entry.slot < self.stack.len() {
                *self.stack.get(entry.slot)
            } else {
                Value::Nil
            };
            let ghost before = self.gc.heap;
            let done = self.gc.heap.set_upvalue(
                entry.upvalue,
                ObjUpvalue { location: None, closed: value },
            );
            proof {
                if done {
                    lemma_payload_view(&before, &self.gc.heap, entry.upvalue.index as int);
                }
                assert(list.take(i + 1).drop_last() =~= list.take(i as int));
                assert(list.take(i + 1).last() == list[i as int]);
                assert(list.skip(i as int)[0] == list[i as int]);
                assert(list.skip(i as int).skip(1) =~= list.skip(i + 1));
                assert(self.gc.heap@ =~= close_one(before@, entry, self.stack@));
            }
            i += 1;
        }
        proof {
            if i < list.len() {
                assert(list.skip(i as int)[0] == list[i as int]);
            }
            assert(closing_count(list, boundary) == i);
            assert forall|a: int, b: int| 0 <= a < b < list.skip(i as int).len() implies list.skip(
                i as int,
            )[a].slot > list.skip(i as int)[b].slot by {
                assert(list[a + i].slot > list[b + i].slot);
            }
            assert forall|j: int| 0 <= j < list.skip(i as int).len() implies (#[trigger] list.skip(
                i as int,
            )[j]).slot < boundary by {
                if j > 0 {
                    assert(list[i as int].slot > list[i + j].slot);
                }
            }
        }
        let rest = self.open_upvalues.split_off(i);
        self.open_upvalues = rest;
        proof {
            assert(self.open_upvalues@ =~= list.skip(i as int));
            if old(self).sound() {
                Self::lemma_upvalues_closed_sound(old(self), self, boundary);
                assert forall|r: GcRef| #[trigger] self.is_root(r) implies self.gc.heap.live(
                    r.index as int,
                ) by {
                    assert forall|k: int| 0 <= k < self.stack@.len() implies old(self).stack@.contains(#[trigger] self.stack@[k]) by {
                        assert(old(self).stack@[k] == self.stack@[k]);
                    }
                    assert forall|k: int|
                        0 <= k < self.frames@.len() implies crate::vm::sound::closure_held(
                        old(self).frames@,
                        (#[trigger] self.frames@[k]).closure,
                    ) by {
                        assert(old(self).frames@[k].closure == self.frames@[k].closure);
                    }
                    Self::lemma_root_left(old(self), self, r);
                }
            }
        }
    }

    /// The machine holds the upvalue `r` for stack slot `slot`: the one
    /// that the list had for the slot, or else a new, open one, which has
    /// taken its place in the list.
    pub open spec fn captured(before: &Self, after: &Self, slot: usize, r: GcRef) -> bool {
        let list = before.open_upvalues@;
        &&& after.stack == before.stack
        &&& after.frames == before.frames
        &&& after.globals == before.globals
        &&& after.init_string == before.init_string
        &&& if exists|i: int| 0 <= i < list.len() && (#[trigger] list[i]).slot == slot {
            &&& exists|i: int|
                0 <= i < list.len() && (#[trigger] list[i]).slot == slot && list[i].upvalue == r
            &&& after.open_upvalues@ == list
            &&& after.gc == before.gc
        } else {
            &&& exists|p: int|
                0 <= p <= list.len() && #[trigger] list.insert(p, OpenUpvalue { slot, upvalue: r })
                    == after.open_upvalues@
            &&& exists|ready: Gc| #[trigger]
                Gc::prepared(&before.gc, before.roots(), &ready) && after.gc.allocated_as(
                    &ready,
                    ObjView::Upvalue { location: Some(slot), closed: Value::Nil },
                    r,
                )
        }
    }

    /// The upvalue for stack slot `slot`: the open one the list has for
    /// it, or a new one.
    pub fn capture_upvalue(&mut self, slot: usize) -> (r: GcRef)
        requires
            old(self).wf(),
        ensures
            final(self).wf(),
            Self::captured(old(self), final(self), slot, r),
            exists|i: int|
                0 <= i < final(self).open_upvalues@.len() && (
                #[trigger] final(self).open_upvalues@[i]).slot == slot
                    && final(self).open_upvalues@[i].upvalue == r,
            old(self).sound() ==> final(self).sound(),
    {
        let r = self.capture(slot);
        proof {
            if old(self).sound() {
                Self::lemma_captured_sound(old(self), self, slot, r);
            }
        }
        r
    }

    /// Finds or makes the upvalue for stack slot `slot`.
    fn capture(&mut self, slot: usize) -> (r: GcRef)
        requires
            old(self).wf(),
        ensures
            final(self).wf(),
            Self::captured(old(self), final(self), slot, r),
            exists|i: int|
                0 <= i < final(self).open_upvalues@.len() && (
                #[trigger] final(self).open_upvalues@[i]).slot == slot
                    && final(self).open_upvalues@[i].upvalue == r,
    {
        let ghost list = self.open_upvalues@;
        let mut p: usize = 0;
        while p < self.open_upvalues.len() && self.open_upvalues[p].slot > slot
            invariant
                p <= list.len(),
                self.open_upvalues@ == list,
                *self == *old(self),
                forall|i: int| 0 <= i < p ==> (#[trigger] list[i]).slot > slot,
            decreases list.len() - p,
        {
            p += 1;
        }
        if p < self.open_upvalues.len() && self.open_upvalues[p].slot == slot {
            let r = self.open_upvalues[p].upvalue;
            proof {
                assert(list[p as int].slot == slot && list[p as int].upvalue == r);
            }
            return r;
        }
        proof {
            assert forall|i: int| p <= i < list.len() implies (#[trigger] list[i]).slot < slot by {
                if i > p {
                    assert(list[p as int].slot > list[i].slot);
                }
            }
            assert(!exists|i: int| 0 <= i < list.len() && (#[trigger] list[i]).slot == slot);
        }
        let r = self.allocate(ObjData::Upvalue(ObjUpvalue::new(slot)));
        let entry = OpenUpvalue { slot, upvalue: r };
        self.open_upvalues.insert(p, entry);
        proof {
            let after = self.open_upvalues@;
            assert(after == list.insert(p as int, entry));
            assert(after[p as int] == entry);
            assert forall|a: int, b: int| 0 <= a < b < after.len() implies after[a].slot
                > after[b].slot by {
                let a0 = if a < p {
                    a
                } else {
                    a - 1
                };
                let b0 = if b < p {
                    b
                } else {
                    b - 1
                };
                if a != p && b != p {
                    assert(after[a] == list[a0]);
                    assert(after[b] == list[b0]);
                    assert(list[a0].slot > list[b0].slot);
                } else if a == p {
                    assert(after[b] == list[b0]);
                    assert(list[b0].slot < slot);
                } else {
                    assert(after[a] == list[a0]);
                    assert(list[a0].slot > slot);
                }
            }
        }
        r
    }

    /// The upvalue of the running closure that the operand names, if it
    /// names one.
    pub open spec fn upvalue_at(&self) -> Option<GcRef> {
        match self.byte_at(1) {
            Some(index) => {
                let upvalues = self.gc.heap.data(
                    self.frame().closure.index as int,
                )->Closure_upvalues;
                if index < upvalues.len() && self.gc.heap.is_a(
                    upvalues[index as int],
                    ObjType::Upvalue,
                ) {
                    Some(upvalues[index as int])
                } else {
                    None
                }
            },
            None => None,
        }
    }

    fn fetch_upvalue(&self) -> (r: Option<(GcRef, ObjUpvalue)>)
        ensures
            self.upvalue_at() == (match r {
                Some(pair) => Some(pair.0),
                None => None,
            }),
            r.is_some() ==> self.gc.heap.object(r.unwrap().0.index as int).data == ObjData::Upvalue(
                r.unwrap().1,
            ) && self.frames@.len() > 0 && self.frame().ip + 1 < usize::MAX,
    {
        match self.fetch(1) {
            Some(index) => {
                let closure = self.frames.get(self.frames.len() - 1).closure;
                match self.gc.heap.closure(closure) {
                    Some(payload) => {
                        if (index as usize) < payload.upvalues.len() {
                            let r = payload.upvalues[index as usize];
                            match self.gc.heap.upvalue(r) {
                                Some(state) => Some((r, *state)),
                                None => None,
                            }
                        } else {
                            None
                        }
                    },
                    None => None,
                }
            },
            None => None,
        }
    }

    /// `GetUpvalue`: pushes the value of the captured variable: from the
    /// stack while it is open, from the upvalue once it is closed.
    pub open spec fn get_upvalue_effect(before: &Self, after: &Self, out: Option<SignalView>) -> bool {
        match before.upvalue_at() {
            Some(r) => match before.gc.heap.data(r.index as int)->Upvalue_location {
                Some(slot) => if slot < before.stack@.len() {
                    Self::pushes(before, after, out, before.stack@[slot as int], 2)
                } else {
                    Self::failed(before, after, out, RuntimeErrorKindView::Corrupt)
                },
                None => Self::pushes(
                    before,
                    after,
                    out,
                    before.gc.heap.data(r.index as int)->Upvalue_closed,
                    2,
                ),
            },
            None => Self::failed(before, after, out, RuntimeErrorKindView::Corrupt),
        }
    }

    pub(crate) fn op_get_upvalue(&mut self) -> (out: Option<Signal>)
        requires
            old(self).wf(),
        ensures
            final(self).wf(),
            Self::get_upvalue_effect(old(self), final(self), signal_view(out)),
    {
        match self.fetch_upvalue() {
            Some((_, state)) => match state.location {
                Some(slot) => {
                    if slot < self.stack.len() {
                        let value = *self.stack.get(slot);
                        self.push_and_go(value, 2)
                    } else {
                        Some(self.fail(RuntimeErrorKind::Corrupt))
                    }
                },
                None => self.push_and_go(state.closed, 2),
            },
            None => Some(self.fail(RuntimeErrorKind::Corrupt)),
        }
    }

    /// `SetUpvalue`: gives the captured variable the value on top of the
    /// stack, which stays: on the stack while it is open, in the upvalue
    /// once it is closed.
    pub open spec fn set_upvalue_effect(before: &Self, after: &Self, out: Option<SignalView>) -> bool {
        let n = before.stack@.len();
        match before.upvalue_at() {
            Some(r) => if n >= 1 {
                match before.gc.heap.data(r.index as int)->Upvalue_location {
                    Some(slot) => if slot < n {
                        out.is_none() && Self::went_on(
                            before,
                            after,
                            before.stack@.update(slot as int, before.stack@.last()),
                            before.frame().ip + 2,
                        )
                    } else {
                        Self::failed(before, after, out, RuntimeErrorKindView::Corrupt)
                    },
                    None => out.is_none() && Self::went_on_setting(
                        before,
                        after,
                        r.index as int,
                        ObjView::Upvalue { location: None, closed: before.stack@.last() },
                        before.stack@,
                        before.frame().ip + 2,
                    ),
                }
            } else {
                Self::failed(before, after, out, RuntimeErrorKindView::Corrupt)
            },
            None => Self::failed(before, after, out, RuntimeErrorKindView::Corrupt),
        }
    }

    pub(crate) fn op_set_upvalue(&mut self) -> (out: Option<Signal>)
        requires
            old(self).wf(),
        ensures
            final(self).wf(),
            Self::set_upvalue_effect(old(self), final(self), signal_view(out)),
    {
        match self.fetch_upvalue() {
            Some((r, state)) => {
                if self.stack.len() >= 1 {
                    let value = self.peek(0);
                    match state.location {
                        Some(slot) => {
                            if slot < self.stack.len() {
                                self.stack.set(slot, value);
                                self.go(2);
                                None
                            } else {
                                Some(self.fail(RuntimeErrorKind::Corrupt))
                            }
                        },
                        None => {
                            self.gc.heap.set_upvalue(
                                r,
                                ObjUpvalue { location: None, closed: value },
                            );
                            proof {
                                lemma_payload_view(
                                    &old(self).gc.heap,
                                    &self.gc.heap,
                                    r.index as int,
                                );
                            }
                            self.go(2);
                            None
                        },
                    }
                } else {
                    Some(self.fail(RuntimeErrorKind::Corrupt))
                }
            },
            None => Some(self.fail(RuntimeErrorKind::Corrupt)),
        }
    }

    /// `CloseUpvalue`: closes the upvalue for the top of the stack, and
    /// drops the top.
    pub open spec fn close_upvalue_effect(
        before: &Self,
        after: &Self,
        out: Option<SignalView>,
    ) -> bool {
        let n = before.stack@.len();
        if before.byte_at(0).is_some() && n >= 1 {
            &&& out.is_none()
            &&& Self::upvalues_closed(before, after, (n - 1) as usize)
            &&& after.stack@ == before.stack@.drop_last()
            &&& Self::ip_moved(before, after, before.frame().ip + 1)
            &&& after.globals@ == before.globals@
            &&& after.init_string == before.init_string
        } else {
            Self::failed(before, after, out, RuntimeErrorKindView::Corrupt)
        }
    }

    pub(crate) fn op_close_upvalue(&mut self) -> (out: Option<Signal>)
        requires
            old(self).wf(),
        ensures
            final(self).wf(),
            Self::close_upvalue_effect(old(self), final(self), signal_view(out)),
    {
        if self.fetch(0).is_some() && self.stack.len() >= 1 {
            self.close_upvalues(self.stack.len() - 1);
            self.stack.pop_n(1);
            self.go(1);
            None
        } else {
            Some(self.fail(RuntimeErrorKind::Corrupt))
        }
    }
}

} // verus!
