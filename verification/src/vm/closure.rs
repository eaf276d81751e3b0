use vstd::prelude::*;
use crate::mem::collector::lemma_root_reachable;
use crate::mem::collector::lemma_reachable_step;
use crate::mem::collector::reachable;
use crate::mem::collector::refers_to;
use crate::mem::gc_ref::GcRef;
use crate::obj::obj::ObjData;
use crate::obj::obj::ObjType;
use crate::obj::obj::ObjView;
use crate::obj::obj_closure::ObjClosure;
use crate::value::Value;
use crate::vm::object::as_a;
use crate::vm::object::value_as;
use crate::vm::signal::signal_view;
use crate::vm::signal::RuntimeErrorKind;
use crate::vm::signal::RuntimeErrorKindView;
use crate::vm::signal::Signal;
use crate::vm::signal::SignalView;
use crate::vm::OpenUpvalue;
use crate::vm::Vm;

verus! {

/// What one pair of bytes behind a `Closure` instruction asks for: the
/// variable in a stack slot of the running frame, or an upvalue of the
/// running closure.
#[derive(Clone, Copy, Debug)]
pub enum Capture {
    Local(usize),
    Inherited(GcRef),
}

impl<const MAX_FRAMES: usize, const STACK_SIZE: usize> Vm<MAX_FRAMES, STACK_SIZE> {
    /// What the `j`th pair behind the instruction asks for, if the pair is
    /// there and in order. The first byte says whether a local is meant,
    /// the second which local, counted from the frame's slot zero, or
    /// which upvalue of the running closure.
    pub open spec fn planned(&self, j: int) -> Option<Capture> {
        match (self.byte_at(2 + 2 * j), self.byte_at(3 + 2 * j)) {
            (Some(is_local), Some(index)) => if is_local != 0 {
                if self.frame().slots + index <= usize::MAX {
                    Some(Capture::Local((self.frame().slots + index) as usize))
                } else {
                    None
                }
            } else {
                let upvalues = self.gc.heap.data(
                    self.frame().closure.index as int,
                )->Closure_upvalues;
                if index < upvalues.len() {
                    Some(Capture::Inherited(upvalues[index as int]))
                } else {
                    None
                }
            },
            _ => None,
        }
    }

    fn plan(&self, j: usize) -> (capture: Option<Capture>)
        ensures
            capture == self.planned(j as int),
            capture.is_some() ==> self.frames@.len() > 0 && self.frame().ip + 3 + 2 * j
                < usize::MAX,
    {
        if j > (usize::MAX - 3) / 2 {
            return self.plan_none(j);
        }
        match (self.fetch(2 + 2 * j), self.fetch(3 + 2 * j)) {
            (Some(is_local), Some(index)) => {
                let frame = *self.frames.get(self.frames.len() - 1);
                if is_local != 0 {
                    if frame.slots <= usize::MAX - (index as usize) {
                        Some(Capture::Local(frame.slots + (index as usize)))
                    } else {
                        None
                    }
                } else {
                    match self.gc.heap.closure(frame.closure) {
                        Some(payload) => {
                            if (index as usize) < payload.upvalues.len() {
                                Some(Capture::Inherited(payload.upvalues[index as usize]))
                            } else {
                                None
                            }
                        },
                        None => None,
                    }
                }
            },
            _ => None,
        }
    }

    /// A pair so far behind the instruction that its offset is no machine
    /// number is not there.
    fn plan_none(&self, j: usize) -> (capture: Option<Capture>)
        requires
            j > (usize::MAX - 3) / 2,
        ensures
            capture.is_none(),
            self.planned(j as int).is_none(),
    {
        match self.running() {
            Some(function) => {
                let len = function.chunk.bytecode.len();
                assert(self.code().len() == len);
            },
            None => {},
        }
        None
    }

    /// What the first `count` pairs behind the instruction ask for, in
    /// order.
    pub open spec fn plan_of(&self, count: usize) -> Seq<Capture> {
        Seq::new(count as nat, |j: int| self.planned(j).unwrap())
    }

    /// The machine `after` is the machine `before` with `capture` met by
    /// the upvalue `r`: a local is captured, which may open an upvalue;
    /// an inherited upvalue is taken as it is.
    pub open spec fn capture_step(before: &Self, after: &Self, capture: Capture, r: GcRef) -> bool {
        match capture {
            Capture::Local(slot) => Self::captured(before, after, slot, r),
            Capture::Inherited(upvalue) => *after == *before && r == upvalue,
        }
    }

    /// The machine `after` is the machine `before` with the captures of
    /// `plan` met one after the other, by the upvalues `upvalues`: the
    /// machine went through the states of `trail`.
    pub open spec fn captured_along(
        trail: Seq<Self>,
        before: &Self,
        after: &Self,
        plan: Seq<Capture>,
        upvalues: Seq<GcRef>,
    ) -> bool {
        &&& upvalues.len() == plan.len()
        &&& trail.len() == plan.len() + 1
        &&& trail[0] == *before
        &&& trail[plan.len() as int] == *after
        &&& forall|j: int|
            0 <= j < plan.len() ==> Self::capture_step(
                &trail[j],
                &trail[j + 1],
                #[trigger] plan[j],
                upvalues[j],
            )
    }

    /// The machine `after` is the machine `before` with the captures of
    /// `plan` met one after the other, by the upvalues `upvalues`.
    pub open spec fn captured_all(
        before: &Self,
        after: &Self,
        plan: Seq<Capture>,
        upvalues: Seq<GcRef>,
    ) -> bool {
        exists|trail: Seq<Self>| #[trigger]
            Self::captured_along(trail, before, after, plan, upvalues)
    }

    /// The closure `c` over function `function`, with `count` upvalues as
    /// the pairs behind the instruction ask, stands on top of the stack:
    /// the captures were met one after the other, and then the closure was
    /// allocated. The machine is sound if it was.
    pub open spec fn closed_over(
        before: &Self,
        after: &Self,
        function: GcRef,
        count: usize,
        c: GcRef,
    ) -> bool {
        let data = after.gc.heap.data(c.index as int);
        &&& after.stack@ == before.stack@.push(Value::Obj(c))
        &&& Self::ip_moved(before, after, before.frame().ip + 2 + 2 * count)
        &&& after.globals@ == before.globals@
        &&& after.init_string == before.init_string
        &&& before.sound() ==> after.sound()
        &&& data is Closure
        &&& data->Closure_function == function
        &&& data->Closure_upvalues.len() == count
        &&& forall|j: int|
            0 <= j < count ==> Self::capture_met(
                after.open_upvalues@,
                (#[trigger] before.planned(j)).unwrap(),
                data->Closure_upvalues[j],
            )
        &&& exists|mid: Self, made: Self|
            #![trigger Self::captured_all(before, &mid, before.plan_of(count), data->Closure_upvalues), Self::allocation(&mid, &made, data, c)]
            Self::captured_all(before, &mid, before.plan_of(count), data->Closure_upvalues)
                && Self::allocation(&mid, &made, data, c) && after.gc == made.gc
                && after.open_upvalues == made.open_upvalues
    }

    /// The upvalue `r` is what `capture` asks for: the open upvalue for
    /// the slot, or the inherited upvalue itself.
    pub open spec fn capture_met(list: Seq<OpenUpvalue>, capture: Capture, r: GcRef) -> bool {
        match capture {
            Capture::Local(slot) => exists|i: int|
                0 <= i < list.len() && (#[trigger] list[i]).slot == slot && list[i].upvalue == r,
            Capture::Inherited(upvalue) => r == upvalue,
        }
    }

    /// `Closure`: pushes a new closure over the function that the operand
    /// names, with one upvalue for each pair of bytes that follows, as
    /// many pairs as the function counts upvalues.
    pub open spec fn closure_effect(before: &Self, after: &Self, out: Option<SignalView>) -> bool {
        let heap = &before.gc.heap;
        match before.constant_at(1) {
            Some(constant) => match as_a(heap, constant, ObjType::Function) {
                Some(function) => {
                    let count = heap.data(function.index as int)->Function_upvalue_count;
                    if forall|j: int| 0 <= j < count ==> (#[trigger] before.planned(j)).is_some() {
                        if before.stack@.len() < STACK_SIZE {
                            out.is_none() && exists|c: GcRef|
                                #[trigger] after.gc.heap.live(c.index as int) && Self::closed_over(
                                    before,
                                    after,
                                    function,
                                    count,
                                    c,
                                )
                        } else {
                            Self::failed(before, after, out, RuntimeErrorKindView::StackOverflow)
                        }
                    } else {
                        Self::failed(before, after, out, RuntimeErrorKindView::Corrupt)
                    }
                },
                None => Self::failed(before, after, out, RuntimeErrorKindView::Corrupt),
            },
            None => Self::failed(before, after, out, RuntimeErrorKindView::Corrupt),
        }
    }

    /// Whatever could be reached in `before` is live in `after`, as it
    /// was, and what `before` held itself `after` holds.
    pub open spec fn reach_kept(before: &Self, after: &Self) -> bool {
        &&& forall|x: GcRef| #[trigger]
            reachable(before.gc.heap.slots@, before.roots(), x) ==> after.gc.heap.live(
                x.index as int,
            ) && after.gc.heap.object(x.index as int).data == before.gc.heap.object(
                x.index as int,
            ).data
        &&& before.roots().subset_of(after.roots())
    }

    /// Captures what `plan` asks for, one upvalue for each entry.
    fn capture_all(&mut self, plan: &Vec<Capture>) -> (upvalues: Vec<GcRef>)
        requires
            old(self).wf(),
        ensures
            final(self).wf(),
            final(self).stack == old(self).stack,
            final(self).frames == old(self).frames,
            final(self).globals == old(self).globals,
            final(self).init_string == old(self).init_string,
            upvalues@.len() == plan@.len(),
            forall|j: int|
                0 <= j < plan@.len() ==> Self::capture_met(
                    final(self).open_upvalues@,
                    #[trigger] plan@[j],
                    upvalues@[j],
                ),
            Self::captured_all(old(self), final(self), plan@, upvalues@),
            old(self).sound() ==> final(self).sound() && Self::reach_kept(old(self), final(self)),
    {
        let mut upvalues: Vec<GcRef> = Vec::new();
        let ghost mut trail: Seq<Self> = seq![*self];
        proof {
            if self.sound() {
                assert forall|x: GcRef| #[trigger]
                    reachable(self.gc.heap.slots@, self.roots(), x) implies self.gc.heap.live(
                    x.index as int,
                ) by {
                    let p = choose|p: Seq<GcRef>|
                        #[trigger] crate::mem::collector::is_path(
                            self.gc.heap.slots@,
                            self.roots(),
                            p,
                        ) && p.last() == x;
                    assert(crate::mem::gc::slot_live(
                        self.gc.heap.slots@,
                        p[p.len() - 1].index as int,
                    ));
                }
            }
        }
        let mut i: usize = 0;
        while i < plan.len()
            invariant
                i <= plan@.len(),
                self.wf(),
                self.stack == old(self).stack,
                self.frames == old(self).frames,
                self.globals == old(self).globals,
                self.init_string == old(self).init_string,
                upvalues@.len() == i,
                Self::captured_along(trail, old(self), self, plan@.take(i as int), upvalues@),
                forall|j: int|
                    0 <= j < i ==> Self::capture_met(
                        self.open_upvalues@,
                        #[trigger] plan@[j],
                        upvalues@[j],
                    ),
                old(self).sound() ==> self.sound() && Self::reach_kept(old(self), self),
            decreases plan@.len() - i,
        {
            let ghost list = self.open_upvalues@;
            let ghost before = upvalues@;
            let ghost previous = *self;
            let r = match plan[i] {
                Capture::Local(slot) => self.capture_upvalue(slot),
                Capture::Inherited(r) => r,
            };
            upvalues.push(r);
            proof {
                assert(Self::capture_step(&previous, self, plan@[i as int], r));
                let longer = trail.push(*self);
                assert forall|j: int| 0 <= j < i + 1 implies Self::capture_step(
                    &longer[j],
                    &longer[j + 1],
                    #[trigger] plan@.take(i + 1)[j],
                    upvalues@[j],
                ) by {
                    if j < i {
                        assert(plan@.take(i as int)[j] == plan@[j]);
                        assert(longer[j] == trail[j]);
                        assert(longer[j + 1] == trail[j + 1]);
                        assert(upvalues@[j] == before[j]);
                    }
                }
                trail = longer;
                if old(self).sound() {
                    match plan@[i as int] {
                        Capture::Local(slot) => {
                            Self::lemma_captured_sound(&previous, self, slot, r);
                            assert forall|x: GcRef| #[trigger]
                                reachable(
                                    old(self).gc.heap.slots@,
                                    old(self).roots(),
                                    x,
                                ) implies self.gc.heap.live(x.index as int)
                                && self.gc.heap.object(x.index as int).data == old(self).gc.heap.object(x.index as int).data by {
                                Self::lemma_reachable_kept(
                                    old(self).gc.heap.slots@,
                                    previous.gc.heap.slots@,
                                    old(self).roots(),
                                    previous.roots(),
                                    x,
                                );
                            }
                        },
                        Capture::Inherited(_) => {},
                    }
                }
                let now = self.open_upvalues@;
                assert forall|w: int| 0 <= w < list.len() implies exists|v: int|
                    0 <= v < now.len() && #[trigger] now[v] == #[trigger] list[w] by {
                    match plan@[i as int] {
                        Capture::Local(slot) => {
                            if now == list {
                                assert(now[w] == list[w]);
                            } else {
                                let p = choose|p: int|
                                    0 <= p <= list.len() && #[trigger] list.insert(
                                        p,
                                        OpenUpvalue { slot, upvalue: r },
                                    ) == now;
                                if w < p {
                                    assert(now[w] == list[w]);
                                } else {
                                    assert(now[w + 1] == list[w]);
                                }
                            }
                        },
                        Capture::Inherited(_) => {
                            assert(now[w] == list[w]);
                        },
                    }
                }
                assert forall|j: int| 0 <= j < i + 1 implies Self::capture_met(
                    now,
                    #[trigger] plan@[j],
                    upvalues@[j],
                ) by {
                    if j < i {
                        assert(upvalues@[j] == before[j]);
                        match plan@[j] {
                            Capture::Local(slot) => {
                                let w = choose|w: int|
                                    0 <= w < list.len() && (#[trigger] list[w]).slot == slot
                                        && list[w].upvalue == before[j];
                                let v = choose|v: int|
                                    0 <= v < now.len() && #[trigger] now[v] == list[w];
                                assert(now[v].slot == slot && now[v].upvalue == upvalues@[j]);
                            },
                            Capture::Inherited(_) => {},
                        }
                    }
                }
            }
            i += 1;
        }
        proof {
            assert(plan@.take(plan@.len() as int) =~= plan@);
            assert(Self::captured_along(trail, old(self), self, plan@, upvalues@));
        }
        upvalues
    }

    pub(crate) fn op_closure(&mut self) -> (out: Option<Signal>)
        requires
            old(self).wf(),
        ensures
            final(self).wf(),
            Self::closure_effect(old(self), final(self), signal_view(out)),
    {
        let function = match self.fetch_constant(1) {
            Some(constant) => value_as(&self.gc.heap, constant, ObjType::Function),
            None => None,
        };
        let function = match function {
            Some(function) => function,
            None => {
                return Some(self.fail(RuntimeErrorKind::Corrupt));
            },
        };
        let count = match self.gc.heap.function(function) {
            Some(payload) => payload.upvalue_count,
            None => 0,
        };
        let mut plan: Vec<Capture> = Vec::new();
        let mut j: usize = 0;
        while j < count
            invariant
                j <= count,
                *self == *old(self),
                self.wf(),
                self.constant_at(1).is_some(),
                as_a(&self.gc.heap, self.constant_at(1).unwrap(), ObjType::Function) == Some(
                    function,
                ),
                count == self.gc.heap.data(function.index as int)->Function_upvalue_count,
                plan@.len() == j,
                forall|q: int| 0 <= q < j ==> (#[trigger] self.planned(q)) == Some(plan@[q]),
                self.frames@.len() > 0,
                j > 0 ==> self.frame().ip + 1 + 2 * j < usize::MAX,
                self.frame().ip + 1 < usize::MAX,
            decreases count - j,
        {
            match self.plan(j) {
                Some(capture) => plan.push(capture),
                None => {
                    assert(self.planned(j as int).is_none());
                    return Some(self.fail(RuntimeErrorKind::Corrupt));
                },
            }
            j += 1;
        }
        if self.stack.is_full() {
            return Some(self.fail(RuntimeErrorKind::StackOverflow));
        }
        let upvalues = self.capture_all(&plan);
        let ghost captured = *self;
        let c = self.allocate(ObjData::Closure(ObjClosure { function, upvalues }));
        let ghost made = *self;
        self.stack.push(Value::Obj(c));
        self.go(2 + 2 * count);
        proof {
            assert(plan@ =~= old(self).plan_of(count));
            assert(Self::captured_all(
                old(self),
                &captured,
                old(self).plan_of(count),
                self.gc.heap.data(c.index as int)->Closure_upvalues,
            ));
            assert(Self::allocation(&captured, &made, self.gc.heap.data(c.index as int), c));
            if old(self).sound() {
                let view = ObjView::Closure { function, upvalues: upvalues@ };
                let graph = old(self).gc.heap.slots@;
                let slots = captured.gc.heap.slots@;
                let closure = old(self).frame().closure;
                old(self).lemma_constant_reachable(old(self).byte_at(1).unwrap() as int);
                assert forall|x: GcRef| #[trigger] refers_to(view, x) implies reachable(
                    slots,
                    captured.roots(),
                    x,
                ) by {
                    if x == function {
                        Self::lemma_reachable_kept(
                            graph,
                            slots,
                            old(self).roots(),
                            captured.roots(),
                            x,
                        );
                    } else {
                        let j = choose|j: int| 0 <= j < upvalues@.len() && upvalues@[j] == x;
                        assert(old(self).planned(j) == Some(plan@[j]));
                        assert(Self::capture_met(captured.open_upvalues@, plan@[j], upvalues@[j]));
                        match plan@[j] {
                            Capture::Local(slot) => {
                                let w = choose|w: int|
                                    0 <= w < captured.open_upvalues@.len() && (
                                    #[trigger] captured.open_upvalues@[w]).slot == slot
                                        && captured.open_upvalues@[w].upvalue == x;
                                assert(captured.is_root(x));
                                assert(captured.roots().contains(x));
                                lemma_root_reachable(slots, captured.roots(), x);
                            },
                            Capture::Inherited(inherited) => {
                                assert(refers_to(old(self).gc.heap.data(closure.index as int), x));
                                old(self).lemma_child_live(closure, x);
                                lemma_reachable_step(graph, old(self).roots(), closure, x);
                                Self::lemma_reachable_kept(
                                    graph,
                                    slots,
                                    old(self).roots(),
                                    captured.roots(),
                                    x,
                                );
                            },
                        }
                    }
                }
                let stack = captured.stack@.push(Value::Obj(c));
                assert(Self::went_on_allocating(
                    &captured,
                    self,
                    view,
                    c,
                    stack,
                    captured.frame().ip + 2 + 2 * count,
                ));
                assert forall|k: int| 0 <= k < stack.len() implies (#[trigger] stack[k])
                    == Value::Obj(c) || !(stack[k] is Obj) || captured.stack@.contains(
                    stack[k],
                ) by {
                    if k < captured.stack@.len() {
                        assert(captured.stack@[k] == stack[k]);
                    }
                }
                Self::lemma_went_on_allocating_sound(
                    &captured,
                    self,
                    view,
                    c,
                    stack,
                    captured.frame().ip + 2 + 2 * count,
                );
            }
            assert(self.gc.heap.live(c.index as int));
            assert forall|q: int| 0 <= q < count implies Self::capture_met(
                self.open_upvalues@,
                (#[trigger] old(self).planned(q)).unwrap(),
                upvalues@[q],
            ) by {
                assert(old(self).planned(q) == Some(plan@[q]));
            }
            assert(Self::closed_over(old(self), self, function, count, c));
        }
        None
    }
}

} // verus!
