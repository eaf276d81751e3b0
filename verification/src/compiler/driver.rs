use vstd::prelude::*;
use vstd::string::StringSliceAdditionalSpecFns;
use drop_bomb::DropBomb;
use crate::chunk::Chunk;
use crate::chunk::Op;
use crate::compiler::faithful::all_represented;
use crate::compiler::faithful::represents;
use crate::compiler::faithful::well_ended;
use crate::compiler::model::return_bytes;
use crate::compiler::model::ConstView;
use crate::compiler::model_statement::compiled;
use crate::compiler::model::Model;
use crate::compiler::parser::error_views;
use crate::compiler::parser::lexical_errors;
use crate::compiler::parser::next_token;
use crate::compiler::parser::Error;
use crate::compiler::parser::Parser;
use crate::compiler::state::FunctionKind;
use crate::compiler::state::jumps_land;
use crate::compiler::state::starts_at;
use crate::compiler::state::FunctionState;
use crate::compiler::state::Local;
use crate::compiler::state::Upvalue;
use crate::compiler::state::LIMIT;
use crate::compiler::token_kind::TokenKind;
use crate::mem::collector::heap_closed;
use crate::mem::collector::reachable;
use crate::mem::collector::Gc;
use crate::mem::collector::GrayStack;
use crate::mem::gc::slot_live;
use crate::mem::gc_ref::GcRef;
use crate::obj::obj::Object;
use crate::obj::obj::ObjData;
use crate::obj::obj::ObjType;
use crate::obj::obj::ObjView;
use crate::obj::obj_function::ObjFunction;
use crate::text::append_bytes;
use crate::text::append_str;
use crate::text::bytes_eq;
use crate::text::bytes_of;
use crate::value::Value;

verus! {

#[verifier::external_type_specification]
#[verifier::external_body]
pub struct ExDropBomb(DropBomb);

/// `DropBomb::new`: a bomb that goes off when it is dropped armed.
#[verifier::external_body]
fn bomb_new() -> (bomb: DropBomb) {
    DropBomb::new("Compiler must be `finish`ed to handle errors")
}

/// `DropBomb::defuse`: disarms the bomb.
#[verifier::external_body]
fn bomb_defuse(bomb: &mut DropBomb) {
    bomb.defuse()
}

/// The constants of the function under construction `state` are what
/// it says they are, every function among them has code, and its own
/// function object has none yet.
pub open spec fn state_faithful<F: Fn(&Vec<u8>) -> u64>(
    slots: Seq<Option<Object>>,
    parse_number: F,
    state: FunctionState,
) -> bool {
    &&& all_represented(slots, parse_number, state.chunk.constants@, state.consts@)
    &&& crate::compiler::faithful::named(slots, state.name, state.name_text@)
    &&& forall|j: int| 0 <= j < state.consts@.len() ==> well_ended(#[trigger] state.consts@[j])
    &&& crate::mem::gc::slot_object(slots, state.function.index as int).data@ is Function
    &&& crate::mem::gc::slot_object(
        slots,
        state.function.index as int,
    ).data@->Function_bytecode.len() == 0
}

/// The name and the constants of the function under construction are
/// live.
pub open spec fn state_live(slots: Seq<Option<Object>>, state: FunctionState) -> bool {
    &&& state.name.is_some() ==> slot_live(slots, state.name.unwrap().index as int)
    &&& forall|j: int|
        0 <= j < state.chunk.constants@.len() ==> crate::vm::sound::value_live(
            slots,
            #[trigger] state.chunk.constants@[j],
        )
}

/// Giving a function object the name and the constants of a function
/// under construction, which are live, keeps a closed heap closed and
/// every object live.
pub proof fn lemma_installed_closed(
    before: &Gc,
    after: &Gc,
    function: GcRef,
    view: ObjView,
    state: FunctionState,
)
    requires
        heap_closed(before.heap.slots@),
        state_live(before.heap.slots@, state),
        before.heap.live(function.index as int),
        after.heap.only_payload_differs(&before.heap, function.index as int),
        after.heap.data(function.index as int) == view,
        view is Function,
        view->Function_name == state.name,
        view->Function_constants == state.chunk.constants@,
        after.bytes_allocated == before.bytes_allocated,
        after.next_gc == before.next_gc,
        after.stress == before.stress,
        after.gray == before.gray,
    ensures
        heap_closed(after.heap.slots@),
        forall|j: int| #[trigger] before.heap.live(j) == after.heap.live(j),
{
    crate::mem::gc::lemma_payload_view(&before.heap, &after.heap, function.index as int);
    assert forall|c: GcRef| #[trigger] crate::mem::collector::refers_to(view, c) implies slot_live(
        before.heap.slots@,
        c.index as int,
    ) by {
        if state.name != Some(c) {
            let j = choose|j: int|
                0 <= j < state.chunk.constants@.len() && crate::mem::collector::value_ref(
                    #[trigger] state.chunk.constants@[j],
                ) == Some(c);
            assert(crate::vm::sound::value_live(before.heap.slots@, state.chunk.constants@[j]));
        }
    }
    after.lemma_payload_set_keeps_closed(before, function.index as int, view);
}

/// Whether the function under construction `state` holds the reference
/// `r`: as its function, its name, or a constant.
pub open spec fn state_holds(state: FunctionState, r: GcRef) -> bool {
    ||| state.function == r
    ||| state.name == Some(r)
    ||| exists|j: int|
        0 <= j < state.chunk.constants@.len() && #[trigger] state.chunk.constants@[j] == Value::Obj(
            r,
        )
}

/// What a list with one more pushed holds, it held, or it was pushed.
pub proof fn lemma_pushed_was(list: Seq<GcRef>, x: GcRef)
    ensures
        forall|r: GcRef| #[trigger] list.push(x).contains(r) ==> list.contains(r) || r == x,
{
    assert forall|r: GcRef| #[trigger] list.push(x).contains(r) implies list.contains(r) || r
        == x by {
        let i = choose|i: int| 0 <= i < list.push(x).len() && list.push(x)[i] == r;
        if i < list.len() {
            assert(list[i] == r);
        }
    }
}

/// A list with one more pushed holds what it held, and what was pushed.
pub proof fn lemma_push_contains(list: Seq<GcRef>, x: GcRef)
    ensures
        list.push(x).contains(x),
        forall|r: GcRef| list.contains(r) ==> #[trigger] list.push(x).contains(r),
{
    assert(list.push(x)[list.len() as int] == x);
    assert forall|r: GcRef| list.contains(r) implies #[trigger] list.push(x).contains(r) by {
        let i = choose|i: int| 0 <= i < list.len() && list[i] == r;
        assert(list.push(x)[i] == r);
    }
}

/// The compiler. It reads tokens from its parser and emits code into the
/// innermost of the functions under construction. `parse_number` turns
/// the text of a number into the number.
pub struct Compiler<F: Fn(&Vec<u8>) -> u64> {
    pub parser: Parser,
    pub errors: Vec<Error>,
    /// The functions under construction, the script first, the innermost
    /// last.
    pub states: Vec<FunctionState>,
    /// For each class around the code being compiled, outermost first,
    /// whether it has a superclass.
    pub classes: Vec<bool>,
    pub gc: Gc,
    /// References that are in use outside the compiler.
    pub pinned: Vec<GcRef>,
    pub parse_number: F,
    pub bomb: DropBomb,
}

impl<F: Fn(&Vec<u8>) -> u64> Compiler<F> {
    /// The compiler is in order: every function under construction is,
    /// and so are the parser and the heap; and no token that could not be
    /// read has been passed in silence.
    pub open spec fn wf(&self) -> bool {
        &&& self.parser.wf()
        &&& self.gc.wf()
        &&& self.states@.len() >= 1
        &&& forall|k: int| 0 <= k < self.states@.len() ==> (#[trigger] self.states@[k]).ok()
        &&& self.functions_live()
        &&& !self.parser.panic_mode
        &&& self.faithful()
        &&& self.all_reported()
        &&& forall|t: &Vec<u8>| call_requires(self.parse_number, (t,))
    }

    /// Unless an error has been reported, no token that cannot be read
    /// has been passed.
    pub open spec fn all_reported(&self) -> bool {
        self.errors@.len() == 0 ==> self.parser.owed() >= lexical_errors(
            self.parser.scanner.source@,
        ).len()
    }

    /// The compiler holds no reference to an object that is gone: what is
    /// pinned, the name and the constants of every function under
    /// construction are live, and so is whatever a live object refers to.
    pub open spec fn sound(&self) -> bool {
        let slots = self.gc.heap.slots@;
        &&& heap_closed(slots)
        &&& forall|i: int|
            0 <= i < self.pinned@.len() ==> slot_live(slots, (#[trigger] self.pinned@[i]).index as int)
        &&& forall|k: int|
            0 <= k < self.states@.len() ==> state_live(slots, #[trigger] self.states@[k])
    }

    /// The constants of every function under construction are what the
    /// compiler as mathematics says they are, and the function objects,
    /// which are distinct, have no code yet.
    pub open spec fn faithful(&self) -> bool {
        let slots = self.gc.heap.slots@;
        &&& forall|k: int|
            0 <= k < self.states@.len() ==> state_faithful(
                slots,
                self.parse_number,
                #[trigger] self.states@[k],
            )
        &&& forall|k: int, l: int|
            0 <= k < l < self.states@.len() ==> (#[trigger] self.states@[k]).function != (
            #[trigger] self.states@[l]).function
    }

    /// The function object of every function under construction is in the
    /// heap.
    pub open spec fn functions_live(&self) -> bool {
        forall|k: int|
            0 <= k < self.states@.len() ==> self.gc.heap.is_a(
                (#[trigger] self.states@[k]).function,
                ObjType::Function,
            )
    }

    /// The compiler `self` has gone on from the compiler `before`: the
    /// same functions are under construction, each continued, at the same
    /// scope depth; no token has come back; and no error is forgotten.
    pub open spec fn follows(&self, before: &Self) -> bool {
        &&& self.continues(before)
        &&& forall|k: int|
            0 <= k < before.states@.len() ==> self.states@[k].scope_depth == (
            #[trigger] before.states@[k]).scope_depth
    }

    /// As `follows`, but for the scope depths, which may have changed.
    pub open spec fn continues(&self, before: &Self) -> bool {
        &&& self.carries(before)
        &&& self.settled(before)
    }

    /// Unless an error was reported since `before`, the jumps that wait
    /// to be patched are those that waited then.
    pub open spec fn settled(&self, before: &Self) -> bool {
        self.errors@.len() == before.errors@.len() ==> self.state().pending@
            == before.state().pending@
    }

    /// As `continues`, but for the jumps that wait to be patched. Code is
    /// emitted into the innermost function only.
    pub open spec fn carries(&self, before: &Self) -> bool {
        &&& self.states@.len() == before.states@.len()
        &&& forall|k: int|
            0 <= k < before.states@.len() ==> self.states@[k].extends(
                #[trigger] &before.states@[k],
            ) && self.states@[k].arity == before.states@[k].arity
        &&& forall|k: int|
            0 <= k < before.states@.len() - 1 ==> self.states@[k].chunk == (
            #[trigger] before.states@[k]).chunk && self.states@[k].marks == before.states@[k].marks
                && self.states@[k].pending == before.states@[k].pending
        &&& self.parser.measure() <= before.parser.measure()
        &&& self.parser.scanner.source == before.parser.scanner.source
        &&& self.parser.panic_mode == before.parser.panic_mode
        &&& self.classes@ == before.classes@
        &&& self.pinned == before.pinned
        &&& self.parse_number == before.parse_number
        &&& self.errors@.len() >= before.errors@.len()
        &&& before.sound() ==> self.sound()
    }

    /// Every function under construction is at the scope depth it was at
    /// in `before`.
    pub open spec fn level(&self, before: &Self) -> bool {
        forall|k: int|
            0 <= k < before.states@.len() ==> self.states@[k].scope_depth == (
            #[trigger] before.states@[k]).scope_depth
    }

    /// The innermost function under construction.
    pub open spec fn state(&self) -> FunctionState {
        self.states@.last()
    }

    /// The compiler has taken a token since `before`, unless the source
    /// was at its end.
    pub open spec fn progressed(&self, before: &Self) -> bool {
        before.parser.current.kind != TokenKind::Eof ==> self.parser.measure()
            < before.parser.measure()
    }

    /// Whether the compiler holds the reference `r`: it is pinned from
    /// outside, or it is the function, the name or a constant of a
    /// function under construction.
    pub open spec fn holds(&self, r: GcRef) -> bool {
        self.pinned@.contains(r) || self.holds_below(r, self.states@.len() as int)
    }

    /// Whether one of the first `count` functions under construction
    /// holds the reference `r`.
    pub open spec fn holds_below(&self, r: GcRef, count: int) -> bool {
        exists|k: int| 0 <= k < count && state_holds(#[trigger] self.states@[k], r)
    }

    /// The references the compiler holds.
    pub open spec fn held(&self) -> Set<GcRef> {
        Set::new(|r: GcRef| self.holds(r))
    }

    /// The references the compiler holds: those pinned from outside, and
    /// for each function under construction the function, its name and
    /// its constants.
    fn trace_current(&self) -> (roots: Vec<GcRef>)
        ensures
            forall|i: int| 0 <= i < self.pinned@.len() ==> roots@.contains(#[trigger] self.pinned@[i]),
            forall|k: int|
                0 <= k < self.states@.len() ==> Self::state_traced(
                    roots@,
                    #[trigger] self.states@[k],
                    self.states@[k].chunk.constants@.len() as int,
                ),
            roots@.to_set() == self.held(),
    {
        let mut out = GrayStack::new();
        out.push_all(&self.pinned);
        proof {
            assert(out@ =~= self.pinned@);
            assert forall|i: int| 0 <= i < self.pinned@.len() implies out@.contains(
                #[trigger] self.pinned@[i],
            ) by {
                assert(out@[i] == self.pinned@[i]);
            }
        }
        let mut k: usize = 0;
        while k < self.states.len()
            invariant
                k <= self.states@.len(),
                forall|r: GcRef| #[trigger]
                    out@.contains(r) ==> self.pinned@.contains(r) || self.holds_below(r, k as int),
                forall|i: int|
                    0 <= i < self.pinned@.len() ==> out@.contains(#[trigger] self.pinned@[i]),
                forall|j: int|
                    0 <= j < k ==> Self::state_traced(
                        out@,
                        #[trigger] self.states@[j],
                        self.states@[j].chunk.constants@.len() as int,
                    ),
            decreases self.states@.len() - k,
        {
            let state = &self.states[k];
            let ghost before = out@;
            out.push(state.function);
            proof {
                lemma_push_contains(before, state.function);
                lemma_pushed_was(before, state.function);
            }
            match state.name {
                Some(name) => {
                    let ghost named = out@;
                    out.push(name);
                    proof {
                        lemma_push_contains(named, name);
                        lemma_pushed_was(named, name);
                    }
                },
                None => {},
            }
            let mut i: usize = 0;
            while i < state.chunk.constants.len()
                invariant
                    i <= state.chunk.constants@.len(),
                    k < self.states@.len(),
                    state == &self.states@[k as int],
                    forall|r: GcRef| before.contains(r) ==> #[trigger] out@.contains(r),
                    forall|r: GcRef| #[trigger]
                        out@.contains(r) ==> before.contains(r) || state_holds(*state, r),
                    Self::state_traced(out@, *state, i as int),
                decreases state.chunk.constants@.len() - i,
            {
                let ghost pushed = out@;
                out.push_value(state.chunk.constants[i]);
                proof {
                    match state.chunk.constants@[i as int] {
                        Value::Obj(x) => {
                            lemma_push_contains(pushed, x);
                            lemma_pushed_was(pushed, x);
                        },
                        _ => {},
                    }
                }
                i += 1;
            }
            proof {
                assert forall|j: int| 0 <= j < k + 1 implies Self::state_traced(
                    out@,
                    #[trigger] self.states@[j],
                    self.states@[j].chunk.constants@.len() as int,
                ) by {
                    if j < k {
                        assert(Self::state_traced(
                            before,
                            self.states@[j],
                            self.states@[j].chunk.constants@.len() as int,
                        ));
                    }
                }
                assert forall|r: GcRef| #[trigger] out@.contains(r) implies self.pinned@.contains(r)
                    || self.holds_below(r, k + 1) by {
                    if before.contains(r) {
                        if !self.pinned@.contains(r) {
                            let w = choose|w: int|
                                0 <= w < k && state_holds(#[trigger] self.states@[w], r);
                            assert(state_holds(self.states@[w], r));
                        }
                    } else {
                        assert(state_holds(self.states@[k as int], r));
                    }
                }
            }
            k += 1;
        }
        proof {
            let held = self.held();
            assert forall|r: GcRef| out@.to_set().contains(r) <==> held.contains(r) by {
                if self.holds(r) && !self.pinned@.contains(r) {
                    let w = choose|w: int|
                        0 <= w < self.states@.len() && state_holds(#[trigger] self.states@[w], r);
                    let state = self.states@[w];
                    assert(Self::state_traced(out@, state, state.chunk.constants@.len() as int));
                    if state.function != r && state.name != Some(r) {
                        let j = choose|j: int|
                            0 <= j < state.chunk.constants@.len()
                                && #[trigger] state.chunk.constants@[j] == Value::Obj(r);
                        assert(state.chunk.constants@[j] is Obj);
                    }
                }
                if self.pinned@.contains(r) {
                    let i = choose|i: int| 0 <= i < self.pinned@.len() && self.pinned@[i] == r;
                    assert(out@.contains(self.pinned@[i]));
                }
            }
            assert(out@.to_set() =~= held);
        }
        out.stack
    }

    /// The list `roots` holds the function of `state`, its name, and what
    /// its first `count` constants refer to.
    pub open spec fn state_traced(roots: Seq<GcRef>, state: FunctionState, count: int) -> bool {
        &&& roots.contains(state.function)
        &&& state.name.is_some() ==> roots.contains(state.name.unwrap())
        &&& forall|j: int|
            0 <= j < count && (#[trigger] state.chunk.constants@[j]) is Obj ==> roots.contains(
                state.chunk.constants@[j]->Obj_0,
            )
    }

    /// Collects if a collection is due, with what the compiler holds as the
    /// roots: what a path leads to from there stays as it is, and all
    /// else is gone.
    fn collect_if_due(&mut self)
        requires
            old(self).gc.wf(),
            old(self).functions_live(),
        ensures
            Gc::prepared(&old(self).gc, old(self).held(), &final(self).gc),
            final(self).gc.wf(),
            final(self).functions_live(),
            final(self).states == old(self).states,
            final(self).parser == old(self).parser,
            final(self).errors == old(self).errors,
            final(self).classes == old(self).classes,
            final(self).pinned == old(self).pinned,
            final(self).parse_number == old(self).parse_number,
            old(self).sound() ==> final(self).sound(),
            old(self).faithful() ==> final(self).faithful(),
    {
        if self.gc.should_collect() {
            let roots = self.trace_current();
            self.gc.run(&roots);
            proof {
                if old(self).faithful() {
                    self.lemma_collected_faithful(old(self), roots@);
                }
                if old(self).sound() {
                    Gc::lemma_collection_keeps_closed(&old(self).gc, roots@.to_set(), &self.gc);
                    let before = old(self).gc.heap.slots@;
                    let slots = self.gc.heap.slots@;
                    assert forall|i: int| 0 <= i < self.pinned@.len() implies slot_live(
                        slots,
                        (#[trigger] self.pinned@[i]).index as int,
                    ) by {
                        assert(roots@.contains(self.pinned@[i]));
                        assert(roots@.to_set().contains(self.pinned@[i]));
                    }
                    assert forall|k: int| 0 <= k < self.states@.len() implies state_live(
                        slots,
                        #[trigger] self.states@[k],
                    ) by {
                        let state = self.states@[k];
                        assert(state_live(before, state));
                        assert(Self::state_traced(
                            roots@,
                            state,
                            state.chunk.constants@.len() as int,
                        ));
                        if state.name.is_some() {
                            assert(roots@.to_set().contains(state.name.unwrap()));
                        }
                        assert forall|j: int|
                            0 <= j < state.chunk.constants@.len() implies crate::vm::sound::value_live(
                            slots,
                            #[trigger] state.chunk.constants@[j],
                        ) by {
                            assert(crate::vm::sound::value_live(before, state.chunk.constants@[j]));
                            match state.chunk.constants@[j] {
                                Value::Obj(x) => {
                                    assert(roots@.contains(x));
                                    assert(roots@.to_set().contains(x));
                                },
                                _ => {},
                            }
                        }
                    }
                }
                let graph = old(self).gc.heap.slots@;
                assert forall|k: int| 0 <= k < self.states@.len() implies self.gc.heap.is_a(
                    (#[trigger] self.states@[k]).function,
                    ObjType::Function,
                ) by {
                    let f = self.states@[k].function;
                    assert(old(self).gc.heap.is_a(f, ObjType::Function));
                    assert(roots@.contains(f));
                    crate::mem::collector::lemma_root_reachable(graph, roots@.to_set(), f);
                    assert(self.gc.heap.live(f.index as int));
                }
            }
        }
    }

    /// The string with the bytes `text`.
    pub(crate) fn alloc_safe(&mut self, text: &Vec<u8>) -> (r: GcRef)
        requires
            old(self).wf(),
        ensures
            final(self).wf(),
            final(self).follows(old(self)),
            final(self).states == old(self).states,
            final(self).parser == old(self).parser,
            final(self).errors == old(self).errors,
            final(self).classes == old(self).classes,
            final(self).pinned == old(self).pinned,
            final(self).parse_number == old(self).parse_number,
            final(self).gc.heap.live(r.index as int),
            final(self).gc.heap.object(r.index as int).data.text() == Some(text@),
    {
        if self.gc.heap.lookup_string(text).is_none() {
            self.collect_if_due();
        }
        let ghost ready = *self;
        let r = self.gc.place_string(text);
        proof {
            if old(self).sound() {
                if !ready.gc.heap.table().contains_key(text@) {
                    self.gc.lemma_interned_keeps_closed(&ready.gc, text@, r);
                    self.lemma_grown_heap_sound(&ready);
                }
            }
            if old(self).faithful() {
                self.lemma_grown_heap_faithful(&ready);
            }
        }
        r
    }

    /// Where every object that was live is live still and as it was, a
    /// compiler that holds what it held is faithful if it was.
    pub proof fn lemma_grown_heap_faithful(&self, before: &Self)
        requires
            before.faithful(),
            before.functions_live(),
            forall|i: int| #[trigger]
                slot_live(before.gc.heap.slots@, i) ==> slot_live(self.gc.heap.slots@, i)
                    && crate::mem::gc::slot_object(self.gc.heap.slots@, i).data
                    == crate::mem::gc::slot_object(before.gc.heap.slots@, i).data,
            self.parse_number == before.parse_number,
            self.states@.len() == before.states@.len(),
            forall|k: int|
                0 <= k < before.states@.len() ==> (#[trigger] self.states@[k]).function
                    == before.states@[k].function && self.states@[k].chunk.constants@
                    == before.states@[k].chunk.constants@ && self.states@[k].consts
                    == before.states@[k].consts && self.states@[k].name == before.states@[k].name
                    && self.states@[k].name_text == before.states@[k].name_text,
        ensures
            self.faithful(),
    {
        let slots = self.gc.heap.slots@;
        let old_slots = before.gc.heap.slots@;
        assert forall|k: int| 0 <= k < self.states@.len() implies state_faithful(
            slots,
            self.parse_number,
            #[trigger] self.states@[k],
        ) by {
            let state = self.states@[k];
            let was = before.states@[k];
            assert(state_faithful(old_slots, before.parse_number, was));
            assert(before.gc.heap.is_a(was.function, ObjType::Function));
            assert(slot_live(old_slots, was.function.index as int));
            assert forall|j: int| 0 <= j < state.consts@.len() implies represents(
                slots,
                self.parse_number,
                state.chunk.constants@[j],
                #[trigger] state.consts@[j],
            ) by {
                assert(was.consts@[j] == state.consts@[j]);
                crate::compiler::faithful::lemma_represented_when_kept(
                    old_slots,
                    slots,
                    self.parse_number,
                    state.chunk.constants@[j],
                    state.consts@[j],
                );
            }
        }
        assert forall|k: int, l: int| 0 <= k < l < self.states@.len() implies (
        #[trigger] self.states@[k]).function != (#[trigger] self.states@[l]).function by {
            assert(before.states@[k].function != before.states@[l].function);
        }
    }

    /// A collection with the references the compiler holds as the roots
    /// keeps a compiler that holds what it held faithful.
    pub proof fn lemma_collected_faithful(&self, before: &Self, roots: Seq<GcRef>)
        requires
            before.faithful(),
            before.functions_live(),
            Gc::collection(&before.gc, roots.to_set(), &self.gc),
            forall|k: int|
                0 <= k < before.states@.len() ==> Self::state_traced(
                    roots,
                    #[trigger] before.states@[k],
                    before.states@[k].chunk.constants@.len() as int,
                ),
            self.parse_number == before.parse_number,
            self.states == before.states,
        ensures
            self.faithful(),
    {
        let slots = self.gc.heap.slots@;
        let graph = before.gc.heap.slots@;
        let set = roots.to_set();
        assert forall|r: GcRef| #[trigger] reachable(graph, set, r) implies slot_live(
            slots,
            r.index as int,
        ) && crate::mem::gc::slot_object(slots, r.index as int).data
            == crate::mem::gc::slot_object(graph, r.index as int).data by {
            assert(self.gc.heap.live(r.index as int));
        }
        assert forall|k: int| 0 <= k < self.states@.len() implies state_faithful(
            slots,
            self.parse_number,
            #[trigger] self.states@[k],
        ) by {
            let state = self.states@[k];
            assert(state_faithful(graph, before.parse_number, before.states@[k]));
            assert(Self::state_traced(roots, state, state.chunk.constants@.len() as int));
            assert(before.gc.heap.is_a(before.states@[k].function, ObjType::Function));
            assert(set.contains(state.function));
            crate::mem::collector::lemma_root_reachable(graph, set, state.function);
            if state.name_text@.is_some() {
                assert(roots.contains(state.name.unwrap()));
                assert(set.contains(state.name.unwrap()));
                crate::mem::collector::lemma_root_reachable(graph, set, state.name.unwrap());
            }
            assert forall|j: int| 0 <= j < state.consts@.len() implies represents(
                slots,
                self.parse_number,
                state.chunk.constants@[j],
                #[trigger] state.consts@[j],
            ) by {
                let value = state.chunk.constants@[j];
                assert(represents(graph, before.parse_number, value, state.consts@[j]));
                if value is Obj {
                    assert(roots.contains(value->Obj_0));
                    assert(set.contains(value->Obj_0));
                    assert(slot_live(graph, value->Obj_0.index as int));
                    crate::mem::collector::lemma_root_reachable(graph, set, value->Obj_0);
                }
                crate::compiler::faithful::lemma_represented_when_reached(
                    graph,
                    slots,
                    set,
                    self.parse_number,
                    value,
                    state.consts@[j],
                );
            }
        }
    }

    /// Where a function under construction gets its code, the compiler
    /// that holds the functions around it is faithful if it was; and the
    /// function that got its code is what the state it was made from
    /// says.
    pub proof fn lemma_installed_faithful(
        before: &Self,
        heap: &crate::mem::gc::GarbageCollector,
        function: GcRef,
    )
        requires
            before.faithful(),
            before.functions_live(),
            before.states@.len() >= 1,
            function == before.state().function,
            heap.only_payload_differs(&before.gc.heap, function.index as int),
            heap.data(function.index as int) is Function,
            heap.data(function.index as int)->Function_name == before.state().name,
            heap.data(function.index as int)->Function_bytecode == before.state().chunk.bytecode@,
            heap.data(function.index as int)->Function_lines == before.state().chunk.lines@,
            heap.data(function.index as int)->Function_constants
                == before.state().chunk.constants@,
            heap.data(function.index as int)->Function_arity == before.state().arity,
            heap.data(function.index as int)->Function_upvalue_count
                == before.state().upvalues@.len(),
            before.state().chunk.bytecode@.len() > 0,
        ensures
            forall|k: int|
                0 <= k < before.states@.len() - 1 ==> state_faithful(
                    heap.slots@,
                    before.parse_number,
                    #[trigger] before.states@[k],
                ),
            represents(
                heap.slots@,
                before.parse_number,
                Value::Obj(function),
                ConstView::Function(
                    crate::compiler::model::FunctionView {
                        name: before.state().name_text@,
                        code: before.state().chunk.bytecode@,
                        lines: before.state().chunk.lines@,
                        consts: before.state().consts@,
                        arity: before.state().arity,
                        upvalues: before.state().upvalues@.len(),
                    },
                ),
            ),
    {
        let slots = heap.slots@;
        let old_slots = before.gc.heap.slots@;
        let last = before.states@.len() - 1;
        let ended = before.states@[last];
        assert(state_faithful(old_slots, before.parse_number, ended));
        assert(before.gc.heap.is_a(ended.function, ObjType::Function));
        assert forall|i: int| #[trigger]
            slot_live(old_slots, i) && i != function.index implies slot_live(slots, i)
            && crate::mem::gc::slot_object(slots, i).data == crate::mem::gc::slot_object(
            old_slots,
            i,
        ).data by {}
        assert forall|k: int| 0 <= k < before.states@.len() implies all_represented(
            slots,
            before.parse_number,
            (#[trigger] before.states@[k]).chunk.constants@,
            before.states@[k].consts@,
        ) by {
            let state = before.states@[k];
            assert(state_faithful(old_slots, before.parse_number, state));
            assert forall|j: int| 0 <= j < state.consts@.len() implies represents(
                slots,
                before.parse_number,
                state.chunk.constants@[j],
                #[trigger] state.consts@[j],
            ) by {
                crate::compiler::faithful::lemma_represented_when_installed(
                    old_slots,
                    slots,
                    function.index as int,
                    before.parse_number,
                    state.chunk.constants@[j],
                    state.consts@[j],
                );
            }
        }
        assert forall|k: int| 0 <= k < before.states@.len() - 1 implies state_faithful(
            slots,
            before.parse_number,
            #[trigger] before.states@[k],
        ) by {
            assert(state_faithful(old_slots, before.parse_number, before.states@[k]));
            assert(before.states@[k].function != before.states@[last].function);
            assert(before.gc.heap.is_a(before.states@[k].function, ObjType::Function));
        }
        assert(all_represented(
            slots,
            before.parse_number,
            before.states@[last].chunk.constants@,
            before.states@[last].consts@,
        ));
    }

    /// Where every object that was live is live still, and the heap is
    /// closed, a compiler that holds what it held is sound if it was.
    pub proof fn lemma_grown_heap_sound(&self, before: &Self)
        requires
            before.sound(),
            heap_closed(self.gc.heap.slots@),
            forall|i: int| #[trigger] before.gc.heap.live(i) ==> self.gc.heap.live(i),
            self.pinned == before.pinned,
            self.states@.len() == before.states@.len(),
            forall|k: int|
                0 <= k < before.states@.len() ==> (#[trigger] self.states@[k]).name
                    == before.states@[k].name && self.states@[k].chunk.constants@
                    == before.states@[k].chunk.constants@,
        ensures
            self.sound(),
    {
        let slots = self.gc.heap.slots@;
        let old_slots = before.gc.heap.slots@;
        assert forall|i: int| 0 <= i < self.pinned@.len() implies slot_live(
            slots,
            (#[trigger] self.pinned@[i]).index as int,
        ) by {
            assert(before.gc.heap.live(before.pinned@[i].index as int));
        }
        assert forall|k: int| 0 <= k < self.states@.len() implies state_live(
            slots,
            #[trigger] self.states@[k],
        ) by {
            let state = self.states@[k];
            assert(state_live(old_slots, before.states@[k]));
            if state.name.is_some() {
                assert(before.gc.heap.live(state.name.unwrap().index as int));
            }
            assert forall|j: int|
                0 <= j < state.chunk.constants@.len() implies crate::vm::sound::value_live(
                slots,
                #[trigger] state.chunk.constants@[j],
            ) by {
                assert(crate::vm::sound::value_live(old_slots, before.states@[k].chunk.constants@[j]));
                match state.chunk.constants@[j] {
                    Value::Obj(x) => {
                        assert(before.gc.heap.live(x.index as int));
                    },
                    _ => {},
                }
            }
        }
    }

    /// A compiler for `source` that allocates in `gc`, with the first
    /// token read. What `pinned` refers to is kept through every
    /// collection. The compiler is to be ended with `finish`: one that is
    /// dropped without it panics.
    pub fn new(source: &str, gc: Gc, pinned: Vec<GcRef>, parse_number: F) -> (compiler: Self)
        requires
            gc.wf(),
            forall|t: &Vec<u8>| call_requires(parse_number, (t,)),
        ensures
            compiler.wf(),
            compiler.states@.len() == 1,
            compiler.state().fn_kind == FunctionKind::Script,
            compiler.state().chunk.bytecode@.len() == 0,
            compiler.state().chunk.constants@.len() == 0,
            compiler.state().pending@ == Set::<int>::empty(),
            compiler.state().scope_depth == 0,
            compiler.state().arity == 0,
            compiler.parser.current.kind == next_token(source.spec_bytes(), 0, 1).0.kind,
            compiler.parser.previous.kind == TokenKind::Sof,
            error_views(compiler.errors@) == next_token(source.spec_bytes(), 0, 1).1,
            compiler@ == crate::compiler::model_statement::initial(source.spec_bytes()),
            compiler.classes@.len() == 0,
            compiler.parser.scanner.source@ == source.spec_bytes(),
            compiler.pinned == pinned,
            compiler.parse_number == parse_number,
            heap_closed(gc.heap.slots@) && (forall|i: int|
                0 <= i < pinned@.len() ==> gc.heap.live((#[trigger] pinned@[i]).index as int))
                ==> compiler.sound(),
    {
        let mut errors: Vec<Error> = Vec::new();
        let parser = Parser::new(source, &mut errors);
        proof {
            assert(error_views(Seq::<Error>::empty()) =~= Seq::<
                crate::compiler::parser::ErrorView,
            >::empty());
            assert(error_views(errors@) =~= next_token(source.spec_bytes(), 0, 1).1);
        }
        let mut compiler = Compiler {
            parser,
            errors,
            states: Vec::new(),
            classes: Vec::new(),
            gc,
            pinned,
            parse_number,
            bomb: bomb_new(),
        };
        proof {
            assert(compiler@.states =~= Seq::<crate::compiler::model::StateView>::empty());
            assert(compiler@.classes =~= Seq::<bool>::empty());
        }
        let ghost bare = compiler;
        compiler.init(FunctionKind::Script);
        proof {
            reveal(Model::init);
            reveal(Model::advance);
            reveal(crate::compiler::model::ParserView::advance);
            assert(compiler@.states =~= seq![
                crate::compiler::model::fresh(FunctionKind::Script, None),
            ]);
            let start = crate::compiler::model_statement::unread(source.spec_bytes());
            assert(start.errors + next_token(source.spec_bytes(), 0, 1).1 =~= next_token(
                source.spec_bytes(),
                0,
                1,
            ).1);
            assert(compiler@.parser == start.advance().parser);
        }
        compiler
    }

    /// Begins the construction of a function of kind `fn_kind`: allocates
    /// the function object, names it after the token just taken unless it
    /// is the script, and reserves slot zero.
    pub(crate) fn init(&mut self, fn_kind: FunctionKind)
        requires
            old(self).parser.wf(),
            old(self).gc.wf(),
            old(self).functions_live(),
            !old(self).parser.panic_mode,
            old(self).faithful(),
            old(self).all_reported(),
            forall|k: int|
                0 <= k < old(self).states@.len() ==> (#[trigger] old(self).states@[k]).ok(),
            forall|t: &Vec<u8>| call_requires(old(self).parse_number, (t,)),
        ensures
            final(self).wf(),
            final(self).states@.len() == old(self).states@.len() + 1,
            forall|k: int|
                0 <= k < old(self).states@.len() ==> final(self).states@[k] == old(self).states@[k],
            final(self).state().fn_kind == fn_kind,
            final(self).state().chunk.bytecode@.len() == 0,
            final(self).state().chunk.constants@.len() == 0,
            final(self).state().marks@.len() == 0,
            final(self).state().pending@ == Set::<int>::empty(),
            final(self).state().scope_depth == 0,
            final(self).state().arity == 0,
            final(self).state().upvalues@.len() == 0,
            final(self).parser == old(self).parser,
            final(self).errors == old(self).errors,
            final(self).classes == old(self).classes,
            final(self).pinned == old(self).pinned,
            final(self).parse_number == old(self).parse_number,
            old(self).sound() ==> final(self).sound(),
            final(self)@ == old(self)@.init(fn_kind),
    {
        proof {
            reveal(Model::init);
        }
        self.collect_if_due();
        let ghost ready = *self;
        let function = self.gc.place(ObjData::Function(ObjFunction::new()));
        let ghost placed = *self;
        proof {
            if old(self).faithful() {
                placed.lemma_grown_heap_faithful(&ready);
            }
            if old(self).sound() {
                assert forall|c: GcRef| #[trigger]
                    crate::mem::collector::refers_to(placed.gc.heap.data(function.index as int), c) implies false by {
                    let constants = placed.gc.heap.data(function.index as int)->Function_constants;
                    assert(constants.len() == 0);
                }
                placed.gc.lemma_allocated_keeps_closed(
                    &ready.gc,
                    placed.gc.heap.data(function.index as int),
                    function,
                );
                placed.lemma_grown_heap_sound(&ready);
            }
        }
        let mut state = FunctionState {
            function,
            fn_kind,
            name: None,
            arity: 0,
            chunk: Chunk::new(),
            locals: Vec::new(),
            upvalues: Vec::new(),
            scope_depth: 0,
            marks: Ghost(Seq::empty()),
            pending: Ghost(Set::empty()),
            consts: Ghost(Seq::empty()),
            name_text: Ghost(None),
        };
        let slot_zero = match fn_kind {
            FunctionKind::Function => Vec::new(),
            _ => bytes_of("this"),
        };
        state.locals.push(Local { name: slot_zero, depth: Some(0), is_captured: false });
        proof {
            reveal(crate::compiler::state::code_ok);
            reveal(crate::compiler::state::jumps_ok);
            assert(state@.locals =~= crate::compiler::model::fresh(fn_kind, None).locals);
            assert(state@.code =~= Seq::<u8>::empty());
            assert(state@.lines =~= Seq::<u32>::empty());
            assert(state@.consts =~= Seq::<ConstView>::empty());
            assert(state@.upvalues =~= Seq::<Upvalue>::empty());
            assert(state@ == crate::compiler::model::fresh(fn_kind, None));
        }
        let ghost fresh = state;
        self.states.push(state);
        proof {
            assert(self@.states =~= old(self)@.states.push(fresh@));
            if old(self).faithful() {
                let slots = self.gc.heap.slots@;
                assert forall|k: int| 0 <= k < self.states@.len() implies state_faithful(
                    slots,
                    self.parse_number,
                    #[trigger] self.states@[k],
                ) by {
                    if k < placed.states@.len() {
                        assert(self.states@[k] == placed.states@[k]);
                    } else {
                        assert(self.states@[k] == fresh);
                        assert(fresh.chunk.constants@.len() == 0);
                    }
                }
                assert forall|k: int, l: int| 0 <= k < l < self.states@.len() implies (
                #[trigger] self.states@[k]).function != (#[trigger] self.states@[l]).function by {
                    assert(self.states@[k] == placed.states@[k]);
                    if l < placed.states@.len() {
                        assert(self.states@[l] == placed.states@[l]);
                        assert(placed.states@[k].function != placed.states@[l].function);
                    } else {
                        assert(ready.gc.heap.is_a(ready.states@[k].function, ObjType::Function));
                    }
                }
            }
        }
        let ghost pushed = *self;
        match fn_kind {
            FunctionKind::Script => {},
            _ => {
                let mut text: Vec<u8> = Vec::new();
                append_bytes(&mut text, &self.parser.previous.text);
                let ghost before = *self;
                let name = self.gc.place_string(&text);
                let ghost named = *self;
                let last = self.states.len() - 1;
                self.states[last].name = Some(name);
                self.states[last].name_text = Ghost(Some(text@));
                proof {
                    assert(text@ =~= old(self).parser.previous.text@);
                    assert(self@.states =~= old(self)@.states.push(
                        crate::compiler::model::fresh(fn_kind, Some(text@)),
                    ));
                    if old(self).faithful() {
                        named.lemma_grown_heap_faithful(&before);
                        assert forall|k: int| 0 <= k < self.states@.len() implies state_faithful(
                            self.gc.heap.slots@,
                            self.parse_number,
                            #[trigger] self.states@[k],
                        ) by {
                            assert(state_faithful(
                                named.gc.heap.slots@,
                                named.parse_number,
                                named.states@[k],
                            ));
                            if k < last {
                                assert(self.states@[k] == named.states@[k]);
                            }
                        }
                        assert forall|k: int, l: int|
                            0 <= k < l < self.states@.len() implies (#[trigger] self.states@[k]).function != (
                        #[trigger] self.states@[l]).function by {
                            assert(named.states@[k].function != named.states@[l].function);
                            if k < last {
                                assert(self.states@[k] == named.states@[k]);
                            }
                            if l < last {
                                assert(self.states@[l] == named.states@[l]);
                            }
                        }
                    }
                    if old(self).sound() {
                        assert(before.sound());
                        if !before.gc.heap.table().contains_key(text@) {
                            named.gc.lemma_interned_keeps_closed(&before.gc, text@, name);
                        }
                        named.lemma_grown_heap_sound(&before);
                        assert forall|k: int| 0 <= k < self.states@.len() implies state_live(
                            self.gc.heap.slots@,
                            #[trigger] self.states@[k],
                        ) by {
                            if k < last {
                                assert(self.states@[k] == named.states@[k]);
                            }
                            assert(state_live(named.gc.heap.slots@, named.states@[k]));
                        }
                    }
                }
            },
        }
        proof {
            if old(self).sound() {
                match fn_kind {
                    FunctionKind::Script => {
                        assert forall|k: int| 0 <= k < self.states@.len() implies state_live(
                            self.gc.heap.slots@,
                            #[trigger] self.states@[k],
                        ) by {
                            if k < old(self).states@.len() {
                                assert(self.states@[k] == placed.states@[k]);
                                assert(state_live(placed.gc.heap.slots@, placed.states@[k]));
                            }
                        }
                    },
                    _ => {},
                }
            }
        }
    }

    /// The compiler `self` has gone on from `before` without a change to
    /// any function under construction.
    pub open spec fn idle(&self, before: &Self) -> bool {
        &&& self.states == before.states
        &&& self.classes == before.classes
        &&& self.pinned == before.pinned
        &&& self.parse_number == before.parse_number
        &&& self.gc == before.gc
    }

    /// Takes the token that comes next.
    pub(crate) fn advance(&mut self)
        requires
            old(self).wf(),
        ensures
            final(self).wf(),
            final(self).follows(old(self)),
            final(self).progressed(old(self)),
            final(self).idle(old(self)),
            final(self).parser.previous == old(self).parser.current,
            final(self)@ == old(self)@.advance(),
    {
        proof {
            reveal(Model::advance);
        }
        self.parser.advance(&mut self.errors);
        proof {
            reveal(crate::compiler::model::ParserView::advance);
        }
    }

    /// Whether the token that comes next is of kind `kind`.
    pub(crate) fn check(&self, kind: TokenKind) -> (b: bool)
        ensures
            b == (self.parser.current.kind == kind),
    {
        self.parser.check(kind)
    }

    /// Takes the token that comes next if it is of kind `kind`.
    pub(crate) fn check_eat(&mut self, kind: TokenKind) -> (eaten: bool)
        requires
            old(self).wf(),
        ensures
            final(self).wf(),
            final(self).follows(old(self)),
            final(self).idle(old(self)),
            eaten == (old(self).parser.current.kind == kind),
            !eaten ==> final(self).parser == old(self).parser && final(self).errors@ == old(self).errors@,
            eaten ==> final(self).parser.previous == old(self).parser.current,
            eaten && kind != TokenKind::Eof ==> final(self).parser.measure() < old(self).parser.measure(),
            (final(self)@, eaten) == old(self)@.check_eat(kind),
    {
        if self.check(kind) {
            self.advance();
            true
        } else {
            false
        }
    }

    /// Takes the token that comes next if it is of kind `kind`, and
    /// reports the error `msg` otherwise.
    pub(crate) fn consume(&mut self, kind: TokenKind, msg: &str) -> (taken: Result<(), ()>)
        requires
            old(self).wf(),
        ensures
            taken.is_err() ==> final(self).errors@.len() > old(self).errors@.len(),
            final(self).wf(),
            final(self).follows(old(self)),
            final(self).idle(old(self)),
            taken.is_ok() == (old(self).parser.current.kind == kind),
            taken.is_ok() ==> final(self).parser.previous == old(self).parser.current,
            taken.is_err() ==> final(self).parser == old(self).parser && final(self).errors@.len()
                == old(self).errors@.len() + 1 && final(self).errors@.last().message@
                == msg.spec_bytes(),
            taken.is_ok() && kind != TokenKind::Eof ==> final(self).parser.measure() < old(self).parser.measure(),
            (final(self)@, taken) == old(self)@.consume(kind, msg.spec_bytes()),
    {
        proof {
            reveal(Model::consume);
        }
        if self.check(kind) {
            self.advance();
            Ok(())
        } else {
            self.error_at_current(msg)
        }
    }

    /// Reports the error `msg` at the token just taken.
    pub(crate) fn error<T>(&mut self, msg: &str) -> (r: Result<T, ()>)
        requires
            old(self).wf(),
        ensures
            r.is_err(),
            r == Err::<T, ()>(()),
            final(self).wf(),
            final(self).follows(old(self)),
            final(self).idle(old(self)),
            final(self).parser == old(self).parser,
            final(self).errors@.len() == old(self).errors@.len() + 1,
            final(self).errors@.last().message@ == msg.spec_bytes(),
            final(self).errors@.last().line == old(self).parser.previous.line,
            final(self)@ == old(self)@.fail(msg.spec_bytes()),
    {
        proof {
            reveal(Model::fail);
            reveal(Model::report);
        }
        let error = self.parser.error(msg);
        self.errors.push(error);
        proof {
            assert(self.errors@.drop_last() =~= old(self).errors@);
            self.lemma_reported_view(old(self), old(self).parser.previous@, msg.spec_bytes());
        }
        Err(())
    }

    /// Reports the error `msg` at the token that comes next.
    pub(crate) fn error_at_current<T>(&mut self, msg: &str) -> (r: Result<T, ()>)
        requires
            old(self).wf(),
        ensures
            r.is_err(),
            r == Err::<T, ()>(()),
            final(self).wf(),
            final(self).follows(old(self)),
            final(self).idle(old(self)),
            final(self).parser == old(self).parser,
            final(self).errors@.len() == old(self).errors@.len() + 1,
            final(self).errors@.last().message@ == msg.spec_bytes(),
            final(self).errors@.last().line == old(self).parser.current.line,
            final(self)@ == old(self)@.fail_at_current(msg.spec_bytes()),
    {
        proof {
            reveal(Model::fail_at_current);
            reveal(Model::report);
        }
        let error = self.parser.error_at_current(msg);
        self.errors.push(error);
        proof {
            assert(self.errors@.drop_last() =~= old(self).errors@);
            self.lemma_reported_view(old(self), old(self).parser.current@, msg.spec_bytes());
        }
        Err(())
    }

    /// Reports the error `msg`, which the compiler has put together, at
    /// the token just taken.
    pub(crate) fn error_at<T>(&mut self, message: Vec<u8>) -> (r: Result<T, ()>)
        requires
            old(self).wf(),
        ensures
            r.is_err(),
            r == Err::<T, ()>(()),
            final(self).wf(),
            final(self).follows(old(self)),
            final(self).idle(old(self)),
            final(self).parser == old(self).parser,
            final(self).errors@.len() == old(self).errors@.len() + 1,
            final(self).errors@.last().message@ == message@,
            final(self).errors@.last().line == old(self).parser.previous.line,
            final(self)@ == old(self)@.fail(message@),
    {
        proof {
            reveal(Model::fail);
            reveal(Model::report);
        }
        let mut error = self.parser.error("");
        error.message = message;
        self.errors.push(error);
        proof {
            assert(self.errors@.drop_last() =~= old(self).errors@);
            self.lemma_reported_view(old(self), old(self).parser.previous@, message@);
        }
        Err(())
    }

    /// The compiler `self` is the compiler `before` with the instruction
    /// `bytes` emitted into the innermost function.
    pub open spec fn emitted(&self, before: &Self, bytes: Seq<u8>) -> bool {
        &&& self.states@.len() == before.states@.len()
        &&& forall|k: int|
            0 <= k < before.states@.len() - 1 ==> self.states@[k] == #[trigger] before.states@[k]
        &&& self.state().appended(&before.state(), bytes)
        &&& self.state().lined(&before.state(), before.parser.previous.line)
        &&& self.parser == before.parser
        &&& self.errors == before.errors
        &&& self.classes == before.classes
        &&& self.pinned == before.pinned
        &&& self.parse_number == before.parse_number
        &&& self.gc == before.gc
    }

    /// Emits an instruction without operands.
    pub(crate) fn emit_byte(&mut self, op: Op)
        requires
            old(self).wf(),
            op.operand_bytes() == 0,
            op != Op::Closure,
        ensures
            final(self).wf(),
            final(self).follows(old(self)),
            final(self).emitted(old(self), seq![op.byte()]),
            final(self)@ == old(self)@.emit(seq![op.byte()]),
    {
        proof {
            reveal(Model::emit);
        }
        let line = self.parser.previous.line;
        let last = self.states.len() - 1;
        self.states[last].emit_op(op, line);
        proof {
            self.lemma_emitted_view(old(self), seq![op.byte()]);
        }
    }

    /// Emits an instruction with one operand.
    pub(crate) fn emit_bytes(&mut self, op: Op, operand: u8)
        requires
            old(self).wf(),
            op.operand_bytes() == 1,
            op != Op::Closure,
            op.reads_constant() ==> operand < old(self).state().chunk.constants@.len(),
        ensures
            final(self).wf(),
            final(self).follows(old(self)),
            final(self).emitted(old(self), seq![op.byte(), operand]),
            final(self)@ == old(self)@.emit(seq![op.byte(), operand]),
    {
        proof {
            reveal(Model::emit);
        }
        let line = self.parser.previous.line;
        let last = self.states.len() - 1;
        self.states[last].emit_op_operand(op, operand, line);
        proof {
            self.lemma_emitted_view(old(self), seq![op.byte(), operand]);
        }
    }

    /// Emits `Invoke` or `SuperInvoke` with the name constant `name` and
    /// the number of arguments `argc`.
    pub(crate) fn emit_invoke(&mut self, op: Op, name: u8, argc: u8)
        requires
            old(self).wf(),
            op == Op::Invoke || op == Op::SuperInvoke,
            name < old(self).state().chunk.constants@.len(),
        ensures
            final(self).wf(),
            final(self).follows(old(self)),
            final(self).emitted(old(self), seq![op.byte(), name, argc]),
            final(self)@ == old(self)@.emit(seq![op.byte(), name, argc]),
    {
        proof {
            reveal(Model::emit);
        }
        let line = self.parser.previous.line;
        let last = self.states.len() - 1;
        self.states[last].emit_op_operands(op, name, argc, line);
        proof {
            self.lemma_emitted_view(old(self), seq![op.byte(), name, argc]);
        }
    }

    /// Emits a jump whose distance is not known yet, and returns where its
    /// operand stands, for `patch_jump`.
    pub(crate) fn emit_jump(&mut self, op: Op) -> (site: usize)
        requires
            old(self).wf(),
            op == Op::Jump || op == Op::JumpIfFalse,
        ensures
            final(self).wf(),
            final(self).carries(old(self)),
            final(self).level(old(self)),
            final(self).emitted(old(self), seq![op.byte(), 255u8, 255u8]),
            final(self).state().pending@ == old(self).state().pending@.insert(site as int),
            !old(self).state().pending@.contains(site as int),
            site == old(self).state().chunk.bytecode@.len() + 1,
            final(self).state().jump_site(site as int),
            (final(self)@, site as int) == old(self)@.emit_jump(op),
    {
        proof {
            reveal(Model::emit_jump);
        }
        let line = self.parser.previous.line;
        let last = self.states.len() - 1;
        let site = self.states[last].emit_jump(op, line);
        proof {
            self.lemma_emitted_view(old(self), seq![op.byte(), 255u8, 255u8]);
        }
        site
    }

    /// Makes the jump whose operand stands at `site` lead to where the
    /// code ends now. Reports an error if that is too far.
    pub(crate) fn patch_jump(&mut self, site: usize) -> (r: Result<(), ()>)
        requires
            old(self).wf(),
            old(self).state().jump_site(site as int),
        ensures
            r.is_err() ==> final(self).errors@.len() > old(self).errors@.len(),
            final(self).wf(),
            final(self).carries(old(self)),
            final(self).level(old(self)),
            final(self).parser == old(self).parser,
            final(self).state().marks == old(self).state().marks,
            final(self).state().chunk.bytecode@.len() == old(self).state().chunk.bytecode@.len(),
            r.is_ok() == (old(self).state().chunk.bytecode@.len() - site - 2 <= u16::MAX),
            r.is_ok() ==> final(self).state().chunk.bytecode@[site as int] * 256 + final(self).state().chunk.bytecode@[site + 1] == old(self).state().chunk.bytecode@.len() - site
                - 2,
            r.is_ok() ==> final(self).errors == old(self).errors && final(self).state().pending@
                == old(self).state().pending@.remove(site as int),
            r.is_err() ==> final(self).states@ == old(self).states@ && final(self).errors@.len()
                == old(self).errors@.len() + 1 && final(self).errors@.last().message@
                == "Too much code to jump over.".spec_bytes(),
            (final(self)@, r) == old(self)@.patch_jump(site as int),
    {
        proof {
            reveal(Model::patch_jump);
        }
        let last = self.states.len() - 1;
        if self.states[last].patch_to_end(site) {
            proof {
                self.lemma_inner_view(old(self));
            }
            Ok(())
        } else {
            proof {
                assert(self.states@ =~= old(self).states@);
            }
            self.error("Too much code to jump over.")
        }
    }

    /// Emits a jump back to `loop_start`, where an instruction starts.
    /// Reports an error if that is too far.
    pub(crate) fn emit_loop(&mut self, loop_start: usize) -> (r: Result<(), ()>)
        requires
            old(self).wf(),
            starts_at(
                old(self).state().chunk.bytecode@,
                old(self).state().marks@,
                loop_start as int,
            ),
        ensures
            r.is_err() ==> final(self).errors@.len() > old(self).errors@.len(),
            final(self).wf(),
            final(self).follows(old(self)),
            final(self).parser == old(self).parser,
            loop_start <= old(self).state().chunk.bytecode@.len(),
            r.is_ok() == (old(self).state().chunk.bytecode@.len() - loop_start + 3 <= u16::MAX),
            r.is_ok() ==> final(self).emitted(
                old(self),
                seq![
                    Op::Loop.byte(),
                    ((old(self).state().chunk.bytecode@.len() - loop_start + 3) / 256) as u8,
                    ((old(self).state().chunk.bytecode@.len() - loop_start + 3) % 256) as u8,
                ],
            ),
            r.is_err() ==> final(self).errors@.len() == old(self).errors@.len() + 1
                && final(self).errors@.last().message@ == "Loop body too large.".spec_bytes(),
            (final(self)@, r) == old(self)@.emit_loop(loop_start as int),
    {
        proof {
            reveal(Model::emit_loop);
        }
        let line = self.parser.previous.line;
        let last = self.states.len() - 1;
        let ghost count = self.state().chunk.bytecode@.len();
        if self.states[last].emit_loop(loop_start, line) {
            proof {
                self.lemma_emitted_view(
                    old(self),
                    seq![
                        Op::Loop.byte(),
                        ((count - loop_start + 3) / 256) as u8,
                        ((count - loop_start + 3) % 256) as u8,
                    ],
                );
            }
            Ok(())
        } else {
            proof {
                self.lemma_emitted_view(old(self), seq![Op::Loop.byte(), 255u8, 255u8]);
            }
            self.error("Loop body too large.")
        }
    }

    /// Emits the return at the end of a function: of the instance, from
    /// an initializer, and of nil from anything else.
    pub(crate) fn emit_return(&mut self)
        requires
            old(self).wf(),
        ensures
            final(self).wf(),
            final(self).follows(old(self)),
            final(self).parser == old(self).parser,
            final(self).errors == old(self).errors,
            final(self).state().marks@.len() > 0,
            final(self).state().chunk.bytecode@[final(self).state().marks@.last()]
                == Op::Return.byte(),
            final(self).state().locals == old(self).state().locals,
            final(self).state().upvalues == old(self).state().upvalues,
            final(self).state().arity == old(self).state().arity,
            final(self).classes == old(self).classes,
            final(self).gc == old(self).gc,
            final(self).inner_changed(old(self)),
            old(self).state().pending@ =~= Set::<int>::empty() ==> jumps_land(
                final(self).state().chunk.bytecode@,
                final(self).state().marks@,
            ),
            final(self).state().chunk.bytecode@ == old(self).state().chunk.bytecode@
                + return_bytes(old(self).state().fn_kind),
            final(self).state().chunk.constants == old(self).state().chunk.constants,
            final(self).state().consts == old(self).state().consts,
            final(self).state().function == old(self).state().function,
            final(self)@ == old(self)@.emit_return(),
    {
        proof {
            reveal(Model::emit_return);
        }
        let last = self.states.len() - 1;
        match self.states[last].fn_kind {
            FunctionKind::Initializer => self.emit_bytes(Op::GetLocal, 0),
            _ => self.emit_byte(Op::Nil),
        }
        let ghost loaded = self.state();
        self.emit_byte(Op::Return);
        proof {
            if old(self).state().fn_kind == FunctionKind::Initializer {
                crate::compiler::model::lemma_emit_twice(
                    old(self)@,
                    seq![Op::GetLocal.byte(), 0u8],
                    seq![Op::Return.byte()],
                );
                assert(seq![Op::GetLocal.byte(), 0u8] + seq![Op::Return.byte()] =~= return_bytes(
                    FunctionKind::Initializer,
                ));
            } else {
                crate::compiler::model::lemma_emit_twice(
                    old(self)@,
                    seq![Op::Nil.byte()],
                    seq![Op::Return.byte()],
                );
                assert(seq![Op::Nil.byte()] + seq![Op::Return.byte()] =~= return_bytes(
                    old(self).state().fn_kind,
                ));
            }
            let ended = self.state();
            let code = ended.chunk.bytecode@;
            assert(code =~= old(self).state().chunk.bytecode@ + return_bytes(
                old(self).state().fn_kind,
            ));
            if old(self).state().pending@ =~= Set::<int>::empty() {
                assert forall|i: int|
                    0 <= i < ended.marks@.len() && crate::compiler::state::is_jump(
                        code[#[trigger] ended.marks@[i]],
                    ) implies ended.marks@.contains(
                    crate::compiler::state::jump_target(code, ended.marks@[i]),
                ) by {
                    ended.lemma_appended_jump(&loaded, seq![Op::Return.byte()], i);
                }
            }
        }
    }

    /// Adds `value` to the constants of the innermost function. Reports
    /// an error if there are too many.
    pub(crate) fn make_constant(&mut self, value: Value, Ghost(constant): Ghost<ConstView>) -> (r:
        Result<u8, ()>)
        requires
            old(self).wf(),
            crate::vm::sound::value_live(old(self).gc.heap.slots@, value),
            represents(old(self).gc.heap.slots@, old(self).parse_number, value, constant),
            well_ended(constant),
        ensures
            r.is_err() ==> final(self).errors@.len() > old(self).errors@.len(),
            final(self).wf(),
            final(self).follows(old(self)),
            final(self).parser == old(self).parser,
            final(self).gc == old(self).gc,
            final(self).state().chunk.bytecode == old(self).state().chunk.bytecode,
            final(self).state().marks == old(self).state().marks,
            final(self).state().locals == old(self).state().locals,
            final(self).state().upvalues == old(self).state().upvalues,
            r.is_ok() == (old(self).state().chunk.constants@.len() < LIMIT),
            r.is_ok() ==> r.unwrap() == old(self).state().chunk.constants@.len() && final(self).state().chunk.constants@ == old(self).state().chunk.constants@.push(value),
            r.is_ok() ==> final(self).errors == old(self).errors,
            r.is_err() ==> final(self).states@ == old(self).states@ && final(self).errors@.last().message@ == "Too many constants in one chunk.".spec_bytes(),
            (final(self)@, r) == old(self)@.make_constant(constant),
    {
        proof {
            reveal(Model::make_constant);
        }
        let last = self.states.len() - 1;
        match self.states[last].make_constant(value) {
            Some(index) => {
                let ghost added = *self;
                let ghost consts = added.states@[last as int].consts@.push(constant);
                self.states[last].consts = Ghost(consts);
                proof {
                    self.lemma_inner_view(old(self));
                    if old(self).faithful() {
                        let slots = self.gc.heap.slots@;
                        assert forall|k: int| 0 <= k < self.states@.len() implies state_faithful(
                            slots,
                            self.parse_number,
                            #[trigger] self.states@[k],
                        ) by {
                            assert(state_faithful(slots, old(self).parse_number, old(self).states@[k]));
                            if k == last {
                                let state = self.states@[k];
                                let was = old(self).states@[k];
                                assert forall|j: int| 0 <= j < state.consts@.len() implies represents(
                                    slots,
                                    self.parse_number,
                                    state.chunk.constants@[j],
                                    #[trigger] state.consts@[j],
                                ) by {
                                    if j < was.consts@.len() {
                                        assert(state.consts@[j] == was.consts@[j]);
                                        assert(state.chunk.constants@[j] == was.chunk.constants@[j]);
                                    }
                                }
                                assert forall|j: int| 0 <= j < state.consts@.len() implies well_ended(
                                    #[trigger] state.consts@[j],
                                ) by {
                                    if j < was.consts@.len() {
                                        assert(state.consts@[j] == was.consts@[j]);
                                    }
                                }
                            } else {
                                assert(self.states@[k] == old(self).states@[k]);
                            }
                        }
                        assert forall|k: int, l: int|
                            0 <= k < l < self.states@.len() implies (#[trigger] self.states@[k]).function != (
                        #[trigger] self.states@[l]).function by {
                            assert(old(self).states@[k].function != old(self).states@[l].function);
                        }
                    }
                }
                Ok(index)
            },
            None => {
                proof {
                    assert(self.states@ =~= old(self).states@);
                }
                self.error("Too many constants in one chunk.")
            },
        }
    }

    /// Emits `Constant` for `value`.
    pub(crate) fn emit_constant(&mut self, value: Value, Ghost(constant): Ghost<ConstView>) -> (r:
        Result<(), ()>)
        requires
            old(self).wf(),
            crate::vm::sound::value_live(old(self).gc.heap.slots@, value),
            represents(old(self).gc.heap.slots@, old(self).parse_number, value, constant),
            well_ended(constant),
        ensures
            r.is_err() ==> final(self).errors@.len() > old(self).errors@.len(),
            final(self).wf(),
            final(self).follows(old(self)),
            final(self).parser == old(self).parser,
            final(self).gc == old(self).gc,
            r.is_ok() == (old(self).state().chunk.constants@.len() < LIMIT),
            r.is_ok() ==> final(self).state().chunk.constants@ == old(self).state().chunk.constants@.push(value) && final(self).state().chunk.bytecode@ == old(self).state().chunk.bytecode@ + seq![
                Op::Constant.byte(),
                old(self).state().chunk.constants@.len() as u8,
            ],
            (final(self)@, r) == old(self)@.emit_constant(constant),
    {
        proof {
            reveal(Model::emit_constant);
        }
        match self.make_constant(value, Ghost(constant)) {
            Ok(index) => {
                self.emit_bytes(Op::Constant, index);
                Ok(())
            },
            Err(_) => Err(()),
        }
    }

    /// The constant for the name `name`.
    pub(crate) fn identifier_constant(&mut self, name: &Vec<u8>) -> (r: Result<u8, ()>)
        requires
            old(self).wf(),
        ensures
            r.is_err() ==> final(self).errors@.len() > old(self).errors@.len(),
            final(self).wf(),
            final(self).follows(old(self)),
            final(self).parser == old(self).parser,
            final(self).state().chunk.bytecode == old(self).state().chunk.bytecode,
            final(self).state().marks == old(self).state().marks,
            r.is_ok() == (old(self).state().chunk.constants@.len() < LIMIT),
            r.is_ok() ==> r.unwrap() == old(self).state().chunk.constants@.len() && r.unwrap()
                < final(self).state().chunk.constants@.len() && final(self).state().chunk.constants@.last() is Obj && final(self).gc.heap.object(
                final(self).state().chunk.constants@.last()->Obj_0.index as int,
            ).data.text() == Some(name@),
            (final(self)@, r) == old(self)@.make_constant(ConstView::Text(name@)),
    {
        let string = self.alloc_safe(name);
        self.make_constant(Value::Obj(string), Ghost(ConstView::Text(name@)))
    }

    /// Ends the construction of the innermost function, which is not the
    /// script: emits the return at its end, and gives the function object
    /// its code. Returns the function and the variables it captures.
    pub(crate) fn end_function(&mut self) -> (done: (GcRef, Vec<Upvalue>))
        requires
            old(self).wf(),
            old(self).states@.len() >= 2,
        ensures
            final(self).wf(),
            final(self).states@.len() == old(self).states@.len() - 1,
            forall|k: int|
                0 <= k < final(self).states@.len() ==> final(self).states@[k] == old(self).states@[k],
            final(self).parser == old(self).parser,
            final(self).errors == old(self).errors,
            final(self).classes == old(self).classes,
            final(self).pinned == old(self).pinned,
            final(self).parse_number == old(self).parse_number,
            done.0 == old(self).state().function,
            done.1@ == old(self).state().upvalues@,
            Self::installed(&final(self).gc, done.0),
            old(self).state().pending@ =~= Set::<int>::empty() ==> Self::complete(
                &final(self).gc,
                done.0,
            ),
            final(self).gc.heap.data(done.0.index as int)->Function_arity == old(self).state().arity,
            final(self).gc.heap.data(done.0.index as int)->Function_upvalue_count
                == done.1@.len(),
            final(self).gc.heap.data(done.0.index as int)->Function_bytecode
                == old(self)@.state().code + return_bytes(old(self)@.state().kind),
            final(self).gc.heap.data(done.0.index as int)->Function_constants.len()
                == old(self)@.state().pool,
            old(self).sound() ==> final(self).sound(),
            represents(
                final(self).gc.heap.slots@,
                final(self).parse_number,
                Value::Obj(done.0),
                ConstView::Function(old(self)@.emit_return().state().finished()),
            ),
            (final(self)@, done.1@) == old(self)@.emit_return().end_function(),
    {
        self.emit_return();
        let ghost ended = self.state();
        let ghost returned = *self;
        let state = self.states.pop();
        proof {
            reveal(Model::end_function);
            assert(self@.states =~= returned@.states.drop_last());
        }
        let (function, upvalues) = match state {
            Some(state) => {
                let function = state.function;
                let compiled = ObjFunction {
                    arity: state.arity,
                    upvalue_count: state.upvalues.len(),
                    chunk: state.chunk,
                    name: state.name,
                };
                proof {
                    assert(crate::compiler::state::code_ok(
                        compiled.chunk.bytecode@,
                        compiled.chunk.constants@.len() as int,
                        ended.marks@,
                    ));
                }
                let ghost view = ObjData::Function(compiled)@;
                self.gc.heap.set_function(function, compiled);
                proof {
                    if old(self).faithful() {
                        Self::lemma_installed_faithful(&returned, &self.gc.heap, function);
                        assert forall|k: int| 0 <= k < self.states@.len() implies state_faithful(
                            self.gc.heap.slots@,
                            self.parse_number,
                            #[trigger] self.states@[k],
                        ) by {
                            assert(self.states@[k] == returned.states@[k]);
                        }
                        assert forall|k: int, l: int|
                            0 <= k < l < self.states@.len() implies (#[trigger] self.states@[k]).function != (
                        #[trigger] self.states@[l]).function by {
                            assert(self.states@[k] == returned.states@[k]);
                            assert(self.states@[l] == returned.states@[l]);
                            assert(returned.states@[k].function != returned.states@[l].function);
                        }
                        assert(returned@.state().finished() == (
                        crate::compiler::model::FunctionView {
                            name: returned.state().name_text@,
                            code: returned.state().chunk.bytecode@,
                            lines: returned.state().chunk.lines@,
                            consts: returned.state().consts@,
                            arity: returned.state().arity,
                            upvalues: returned.state().upvalues@.len(),
                        }));
                    }
                    if old(self).sound() {
                        lemma_installed_closed(&returned.gc, &self.gc, function, view, ended);
                        assert forall|k: int| 0 <= k < self.states@.len() implies state_live(
                            self.gc.heap.slots@,
                            #[trigger] self.states@[k],
                        ) by {
                            assert(self.states@[k] == returned.states@[k]);
                            assert(state_live(returned.gc.heap.slots@, returned.states@[k]));
                        }
                        assert forall|i: int| 0 <= i < self.pinned@.len() implies slot_live(
                            self.gc.heap.slots@,
                            (#[trigger] self.pinned@[i]).index as int,
                        ) by {
                            assert(returned.gc.heap.live(returned.pinned@[i].index as int));
                        }
                    }
                }
                (function, state.upvalues)
            },
            None => (GcRef { index: 0 }, Vec::new()),
        };
        (function, upvalues)
    }

    /// The function `function` in the heap has its code: a run of whole
    /// instructions, the last of them a `Return`, and every constant an
    /// instruction names is in its pool.
    pub open spec fn installed(gc: &Gc, function: GcRef) -> bool {
        let data = gc.heap.data(function.index as int);
        &&& gc.heap.is_a(function, ObjType::Function)
        &&& returns_last(data->Function_bytecode, data->Function_constants.len() as int)
    }

    /// The function `function` in the heap has its code, and every jump
    /// in it leads to the start of an instruction.
    pub open spec fn complete(gc: &Gc, function: GcRef) -> bool {
        let data = gc.heap.data(function.index as int);
        &&& gc.heap.is_a(function, ObjType::Function)
        &&& code_whole(data->Function_bytecode, data->Function_constants.len() as int)
    }

    /// Ends the compilation: emits the return at the end of the script and
    /// gives the script's function its code. Hands back the heap, and the
    /// function if no error was reported, else the errors.
    pub fn finish(self) -> (done: (Gc, Result<GcRef, Vec<Error>>))
        requires
            self.wf(),
            self.states@.len() == 1,
        ensures
            done.0.wf(),
            done.1.is_ok() == (self.errors@.len() == 0),
            done.1.is_ok() ==> done.1.unwrap() == self.state().function && Self::installed(
                &done.0,
                done.1.unwrap(),
            ) && done.0.heap.data(done.1.unwrap().index as int)->Function_arity
                == self.state().arity,
            done.1.is_ok() && self.state().pending@ =~= Set::<int>::empty() ==> Self::complete(
                &done.0,
                done.1.unwrap(),
            ),
            done.1.is_ok() ==> done.0.heap.data(done.1.unwrap().index as int)->Function_bytecode
                == self.state().chunk.bytecode@ + return_bytes(self.state().fn_kind)
                && done.0.heap.data(done.1.unwrap().index as int)->Function_constants
                == self.state().chunk.constants@,
            done.1.is_err() ==> done.1->Err_0@ == self.errors@,
            done.1.is_err() ==> error_views(done.1->Err_0@) == self@.errors,
            done.1.is_ok() ==> represents(
                done.0.heap.slots@,
                self.parse_number,
                Value::Obj(done.1.unwrap()),
                ConstView::Function(self@.emit_return().state().finished()),
            ) && well_ended(ConstView::Function(self@.emit_return().state().finished())),
            done.1.is_ok() == (self@.emit_return().errors.len() == 0),
            done.1.is_err() ==> error_views(done.1->Err_0@) == self@.emit_return().errors,
            done.1.is_err() ==> done.1->Err_0@.len() > 0,
            self.sound() ==> heap_closed(done.0.heap.slots@) && forall|i: int|
                0 <= i < self.pinned@.len() ==> done.0.heap.live(
                    (#[trigger] self.pinned@[i]).index as int,
                ),
    {
        let mut compiler = self;
        compiler.emit_return();
        let ghost ended = compiler.state();
        let ghost returned = compiler;
        let Compiler { parser, errors, mut states, classes, mut gc, pinned, parse_number, mut bomb } =
            compiler;
        bomb_defuse(&mut bomb);
        let state = states.pop();
        let function = match state {
            Some(state) => {
                let function = state.function;
                let compiled = ObjFunction {
                    arity: state.arity,
                    upvalue_count: state.upvalues.len(),
                    chunk: state.chunk,
                    name: state.name,
                };
                proof {
                    assert(crate::compiler::state::code_ok(
                        compiled.chunk.bytecode@,
                        compiled.chunk.constants@.len() as int,
                        ended.marks@,
                    ));
                }
                let ghost view = ObjData::Function(compiled)@;
                gc.heap.set_function(function, compiled);
                proof {
                    if self.faithful() {
                        Self::lemma_installed_faithful(&returned, &gc.heap, function);
                        assert(returned@.state().finished() == (crate::compiler::model::FunctionView {
                            name: returned.state().name_text@,
                            code: returned.state().chunk.bytecode@,
                            lines: returned.state().chunk.lines@,
                            consts: returned.state().consts@,
                            arity: returned.state().arity,
                            upvalues: returned.state().upvalues@.len(),
                        }));
                    }
                    if self.sound() {
                        lemma_installed_closed(&returned.gc, &gc, function, view, ended);
                        assert forall|i: int| 0 <= i < self.pinned@.len() implies gc.heap.live(
                            (#[trigger] self.pinned@[i]).index as int,
                        ) by {
                            assert(returned.gc.heap.live(returned.pinned@[i].index as int));
                        }
                    }
                }
                function
            },
            None => GcRef { index: 0 },
        };
        if errors.len() == 0 {
            (gc, Ok(function))
        } else {
            (gc, Err(errors))
        }
    }
}

/// The code is a run of whole instructions, the last of them a `Return`,
/// and every constant an instruction names is among the `pool` constants.
pub open spec fn returns_last(code: Seq<u8>, pool: int) -> bool {
    exists|marks: Seq<int>| #[trigger]
        crate::compiler::state::code_ok(code, pool, marks) && marks.len() > 0 && code[marks.last()]
            == Op::Return.byte()
}

/// The code is a run of whole instructions, the last of them a `Return`;
/// every constant an instruction names is among the `pool` constants,
/// and every jump leads to the start of an instruction.
pub open spec fn code_whole(code: Seq<u8>, pool: int) -> bool {
    exists|marks: Seq<int>| #[trigger]
        crate::compiler::state::code_ok(code, pool, marks) && marks.len() > 0 && code[marks.last()]
            == Op::Return.byte() && jumps_land(code, marks)
}

/// Compiles `source` into a function in the heap `gc`. What `pinned`
/// refers to is kept through every collection; `parse_number` turns the
/// text of a number into the number. Hands back the heap, and the function
/// for the script if no error was found, else the errors: the errors are
/// those of `compiled`, and the function is the script of `compiled`, with
/// its code and its constants, the functions among them with theirs. A
/// source with a token that cannot be read does not compile; one without
/// any token compiles to the return of nil.
pub fn compile<F: Fn(&Vec<u8>) -> u64>(source: &str, gc: Gc, pinned: Vec<GcRef>, parse_number: F) -> (done:
    (Gc, Result<GcRef, Vec<Error>>))
    requires
        gc.wf(),
        forall|t: &Vec<u8>| call_requires(parse_number, (t,)),
    ensures
        done.0.wf(),
        done.1.is_ok() ==> Compiler::<F>::complete(&done.0, done.1.unwrap())
            && done.0.heap.data(done.1.unwrap().index as int)->Function_arity == 0,
        done.1.is_err() ==> done.1->Err_0@.len() > 0,
        done.1.is_ok() == (compiled(source.spec_bytes()).errors.len() == 0),
        done.1.is_err() ==> error_views(done.1->Err_0@) == compiled(source.spec_bytes()).errors,
        done.1.is_ok() ==> represents(
            done.0.heap.slots@,
            parse_number,
            Value::Obj(done.1.unwrap()),
            ConstView::Function(compiled(source.spec_bytes()).state().finished()),
        ) && well_ended(ConstView::Function(compiled(source.spec_bytes()).state().finished())),
        done.1.is_ok() ==> lexical_errors(source.spec_bytes()).len() == 0,
        crate::compiler::scanner::scan(source.spec_bytes(), 0, 1).kind == TokenKind::Eof
            ==> done.1.is_ok() && done.0.heap.data(
            done.1.unwrap().index as int,
        )->Function_bytecode == seq![Op::Nil.byte(), Op::Return.byte()] && done.0.heap.data(
            done.1.unwrap().index as int,
        )->Function_constants.len() == 0,
        heap_closed(gc.heap.slots@) && (forall|i: int|
            0 <= i < pinned@.len() ==> gc.heap.live((#[trigger] pinned@[i]).index as int))
            ==> heap_closed(done.0.heap.slots@) && (forall|i: int|
            0 <= i < pinned@.len() ==> done.0.heap.live((#[trigger] pinned@[i]).index as int)),
{
    let ghost given = heap_closed(gc.heap.slots@) && (forall|i: int|
        0 <= i < pinned@.len() ==> gc.heap.live((#[trigger] pinned@[i]).index as int));
    let mut compiler = Compiler::new(source, gc, pinned, parse_number);
    proof {
        assert(error_views(compiler.errors@).len() == compiler.errors@.len());
        assert(compiler.state().chunk.bytecode@ =~= Seq::<u8>::empty());
    }
    let ghost first = compiler;
    while !compiler.check(TokenKind::Eof)
        invariant
            compiler.wf(),
            compiler.states@.len() == 1,
            compiler.state().arity == 0,
            compiler.state().fn_kind == FunctionKind::Script,
            compiler.parse_number == parse_number,
            compiler.parser.scanner.source@ == source.spec_bytes(),
            first.parser.current.kind == TokenKind::Eof ==> compiler == first,
            first@ == crate::compiler::model_statement::initial(source.spec_bytes()),
            compiler@.program() == first@.program(),
            compiler.errors@.len() == 0 ==> compiler.state().pending@ =~= Set::<int>::empty(),
            compiler.pinned@ == pinned@,
            given ==> compiler.sound(),
        decreases compiler.parser.measure(),
    {
        let ghost before = compiler;
        compiler.declaration();
    }
    proof {
        reveal(Parser::owed);
        if first.parser.current.kind == TokenKind::Eof {
            assert(Seq::<u8>::empty() + seq![Op::Nil.byte(), Op::Return.byte()] =~= seq![
                Op::Nil.byte(),
                Op::Return.byte(),
            ]);
        }
    }
    compiler.finish()
}

} // verus!
