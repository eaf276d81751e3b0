use vstd::prelude::*;
use vstd::string::StringSliceAdditionalSpecFns;
use crate::chunk::Op;
use crate::compiler::driver::Compiler;
use crate::compiler::model::Model;
use crate::compiler::model::declared;
use crate::compiler::model::lemma_newest;
use crate::compiler::model::lemma_position;
use crate::compiler::model::local_views;
use crate::compiler::model::newest;
use crate::compiler::model::position;
use crate::compiler::state::Local;
use crate::compiler::state::Upvalue;
use crate::compiler::state::LIMIT;
use crate::text::append_bytes;
use crate::text::append_str;
use crate::text::bytes_eq;

verus! {

impl<F: Fn(&Vec<u8>) -> u64> Compiler<F> {
    /// Only the innermost function under construction may differ between
    /// `self` and `before`, and the parser and the heap do not.
    pub open spec fn inner_changed(&self, before: &Self) -> bool {
        &&& self.states@.len() == before.states@.len()
        &&& forall|k: int|
            0 <= k < before.states@.len() - 1 ==> self.states@[k] == #[trigger] before.states@[k]
        &&& self.parser == before.parser
        &&& self.classes == before.classes
        &&& self.pinned == before.pinned
        &&& self.parse_number == before.parse_number
        &&& self.gc == before.gc
    }

    /// Enters a scope. Reports an error if scopes are nested deeper than
    /// the machine can count.
    pub(crate) fn begin_scope(&mut self) -> (r: Result<(), ()>)
        requires
            old(self).wf(),
        ensures
            r.is_err() ==> final(self).errors@.len() > old(self).errors@.len(),
            final(self).wf(),
            final(self).continues(old(self)),
            final(self).inner_changed(old(self)),
            r.is_ok() == (old(self).state().scope_depth < usize::MAX),
            r.is_ok() ==> final(self).state().scope_depth == old(self).state().scope_depth + 1,
            r.is_err() ==> final(self).follows(old(self)),
            final(self).state().chunk == old(self).state().chunk,
            final(self).state().marks == old(self).state().marks,
            final(self).state().locals == old(self).state().locals,
            final(self).state().upvalues == old(self).state().upvalues,
            (final(self)@, r) == old(self)@.begin_scope(),
    {
        proof {
            reveal(Model::begin_scope);
        }
        let last = self.states.len() - 1;
        if self.states[last].scope_depth == usize::MAX {
            return self.error("Too many nested scopes.");
        }
        self.states[last].scope_depth = self.states[last].scope_depth + 1;
        proof {
            self.lemma_inner_view(old(self));
        }
        Ok(())
    }

    /// Leaves a scope: its locals go, each with a `Pop`, or with a
    /// `CloseUpvalue` if a closure has captured it.
    pub(crate) fn end_scope(&mut self)
        requires
            old(self).wf(),
            old(self).state().scope_depth > 0,
        ensures
            final(self).wf(),
            final(self).continues(old(self)),
            final(self).inner_changed(old(self)),
            final(self).errors == old(self).errors,
            final(self).state().scope_depth == old(self).state().scope_depth - 1,
            final(self).state().upvalues == old(self).state().upvalues,
            final(self).state().chunk.constants == old(self).state().chunk.constants,
            final(self).state().locals@.len() <= old(self).state().locals@.len(),
            forall|i: int|
                0 <= i < final(self).state().locals@.len() ==> final(self).state().locals@[i]
                    == old(self).state().locals@[i],
            final(self).state().locals@.len() == 1 || final(self).state().locals@.last().depth.is_none()
                || final(self).state().locals@.last().depth.unwrap() <= final(self).state().scope_depth,
            final(self)@ == old(self)@.end_scope(),
    {
        proof {
            reveal(Model::end_scope);
        }
        let last = self.states.len() - 1;
        self.states[last].scope_depth = self.states[last].scope_depth - 1;
        let depth = self.states[last].scope_depth;
        let ghost entered = *self;
        proof {
            self.lemma_inner_view(old(self));
        }
        loop
            invariant
                self.wf(),
                self@ == old(self)@.with_state(self.state()@),
                self.state()@.drop_locals(self.parser.previous.line) == entered.state()@.drop_locals(
                    self.parser.previous.line,
                ),
                last == self.states@.len() - 1,
                self.continues(old(self)),
                self.inner_changed(old(self)),
                self.errors == old(self).errors,
                self.state().scope_depth == depth,
                depth == old(self).state().scope_depth - 1,
                self.state().upvalues == old(self).state().upvalues,
                self.state().chunk.constants == old(self).state().chunk.constants,
                self.state().locals@.len() <= old(self).state().locals@.len(),
                forall|i: int|
                    0 <= i < self.state().locals@.len() ==> self.state().locals@[i] == old(self).state().locals@[i],
            ensures
                self.state().locals@.len() == 1 || self.state().locals@.last().depth.is_none()
                    || self.state().locals@.last().depth.unwrap() <= self.state().scope_depth,
                self.state()@.drop_locals(self.parser.previous.line) == self.state()@,
            decreases self.state().locals@.len(),
        {
            let count = self.states[last].locals.len();
            let ghost looped = *self;
            proof {
                reveal(Model::emit);
            }
            if count <= 1 {
                break ;
            }
            let captured = match self.states[last].locals[count - 1].depth {
                Some(local_depth) => if local_depth > depth {
                    Some(self.states[last].locals[count - 1].is_captured)
                } else {
                    None
                },
                None => None,
            };
            match captured {
                Some(true) => self.emit_byte(Op::CloseUpvalue),
                Some(false) => self.emit_byte(Op::Pop),
                None => {
                    break ;
                },
            }
            let ghost emitted = *self;
            self.states[last].locals.pop();
            proof {
                assert(self.state()@.locals =~= looped.state()@.locals.drop_last());
                assert(emitted.state()@.lines =~= looped.state()@.lines.push(
                    self.parser.previous.line,
                ));
                assert(self.state()@ == (crate::compiler::model::StateView {
                    code: emitted.state()@.code,
                    lines: looped.state()@.lines.push(self.parser.previous.line),
                    locals: looped.state()@.locals.drop_last(),
                    ..looped.state()@
                }));
                assert(self@.states =~= old(self)@.with_state(self.state()@).states);
            }
        }
    }

    /// Adds a local named `name` to the innermost function, not yet
    /// initialized. Reports an error if the function has too many.
    pub(crate) fn add_local(&mut self, name: Vec<u8>) -> (r: Result<(), ()>)
        requires
            old(self).wf(),
        ensures
            r.is_err() ==> final(self).errors@.len() > old(self).errors@.len(),
            final(self).wf(),
            final(self).follows(old(self)),
            final(self).inner_changed(old(self)),
            r.is_ok() == (old(self).state().locals@.len() < LIMIT),
            r.is_ok() ==> final(self).state().locals@.len() == old(self).state().locals@.len() + 1
                && final(self).state().locals@.last().name == name && final(self).state().locals@.last().depth.is_none() && !final(self).state().locals@.last().is_captured && final(self).errors == old(self).errors,
            forall|i: int|
                0 <= i < old(self).state().locals@.len() ==> final(self).state().locals@[i]
                    == old(self).state().locals@[i],
            r.is_err() ==> final(self).states == old(self).states && final(self).errors@.last().message@
                == "Too many local variables in function.".spec_bytes(),
            final(self).state().chunk == old(self).state().chunk,
            final(self).state().marks == old(self).state().marks,
            final(self).state().upvalues == old(self).state().upvalues,
            (final(self)@, r) == old(self)@.add_local(name@),
    {
        proof {
            reveal(Model::add_local);
        }
        let last = self.states.len() - 1;
        if self.states[last].locals.len() >= LIMIT {
            return self.error("Too many local variables in function.");
        }
        self.states[last].locals.push(Local { name, depth: None, is_captured: false });
        proof {
            self.lemma_inner_view(old(self));
            assert(self.state()@.locals =~= old(self).state()@.locals.push(
                crate::compiler::model::LocalView { name: name@, depth: None, is_captured: false },
            ));
        }
        Ok(())
    }

    /// Whether a local of the innermost scope is named `name`.
    pub open spec fn declared_here(&self, name: Seq<u8>) -> bool {
        let state = self.state();
        exists|i: int|
            0 <= i < state.locals@.len() && (#[trigger] state.locals@[i]).name@ == name
                && Self::in_scope(state.locals@, i, state.scope_depth)
    }

    /// Whether the local at `i` and every local after it belong to the
    /// scope of depth `depth` or to none yet.
    pub open spec fn in_scope(locals: Seq<Local>, i: int, depth: usize) -> bool {
        forall|j: int|
            i <= j < locals.len() ==> (#[trigger] locals[j]).depth.is_none()
                || locals[j].depth.unwrap() >= depth
    }

    /// Declares the variable named by the token just taken: inside a scope
    /// it becomes a local, which must not share its name with another local
    /// of that scope; outside, nothing is done.
    pub(crate) fn declare_variable(&mut self) -> (r: Result<(), ()>)
        requires
            old(self).wf(),
        ensures
            r.is_err() ==> final(self).errors@.len() > old(self).errors@.len(),
            final(self).wf(),
            final(self).follows(old(self)),
            final(self).inner_changed(old(self)),
            final(self).state().chunk == old(self).state().chunk,
            final(self).state().marks == old(self).state().marks,
            final(self).state().upvalues == old(self).state().upvalues,
            old(self).state().scope_depth == 0 ==> r.is_ok() && final(self).states == old(self).states && final(self).errors == old(self).errors,
            old(self).state().scope_depth > 0 ==> (r.is_ok() <==> !old(self).declared_here(
                old(self).parser.previous.text@,
            ) && old(self).state().locals@.len() < LIMIT),
            old(self).state().scope_depth > 0 && r.is_ok() ==> final(self).state().locals@.len()
                == old(self).state().locals@.len() + 1 && final(self).state().locals@.last().name@
                == old(self).parser.previous.text@ && final(self).state().locals@.last().depth.is_none(),
            forall|i: int|
                0 <= i < old(self).state().locals@.len() ==> final(self).state().locals@[i]
                    == old(self).state().locals@[i],
            (final(self)@, r) == old(self)@.declare_variable(),
    {
        proof {
            reveal(Model::declare_variable);
        }
        let last = self.states.len() - 1;
        let depth = self.states[last].scope_depth;
        if depth == 0 {
            return Ok(());
        }
        let ghost views = self.state()@.locals;
        proof {
            assert(views.take(views.len() as int) =~= views);
        }
        let mut name: Vec<u8> = Vec::new();
        append_bytes(&mut name, &self.parser.previous.text);
        assert(name@ =~= self.parser.previous.text@);
        let count = self.states[last].locals.len();
        let mut i: usize = count;
        let mut outside = false;
        while i > 0 && !outside
            invariant
                i <= count,
                count == self.state().locals@.len(),
                last == self.states@.len() - 1,
                *self == *old(self),
                self.wf(),
                depth > 0,
                depth == self.state().scope_depth,
                name@ == self.parser.previous.text@,
                Self::in_scope(self.state().locals@, i as int, depth),
                forall|j: int|
                    i <= j < count ==> (#[trigger] self.state().locals@[j]).name@ != name@,
                outside ==> i > 0 && self.state().locals@[i - 1].depth.is_some()
                    && self.state().locals@[i - 1].depth.unwrap() < depth,
                views == self.state()@.locals,
                declared(views, depth, name@) == declared(views.take(i as int), depth, name@),
            decreases i, if outside { 0int } else { 1int },
        {
            let local = &self.states[last].locals[i - 1];
            proof {
                assert(views.take(i as int).last() == views[i - 1]);
                assert(views.take(i as int).drop_last() =~= views.take(i - 1));
            }
            outside = match local.depth {
                    Some(local_depth) => local_depth < depth,
                    None => false,
                };
            if outside {
                continue ;
            }
            if bytes_eq(&local.name, &name) {
                proof {
                    reveal(Model::declare_variable);
                    assert(self.state().locals@[i - 1].name@ == name@);
                    assert(Self::in_scope(self.state().locals@, i - 1, depth));
                    assert(self.declared_here(name@));
                }
                let mut message: Vec<u8> = Vec::new();
                append_str(&mut message, "Variable ");
                append_bytes(&mut message, &name);
                append_str(&mut message, " already defined in this scope.");
                return self.error_at(message);
            }
            i -= 1;
        }
        proof {
            if i > 0 {
                assert(views.take(i as int).last() == views[i - 1]);
            }
            assert(!declared(views, depth, name@));
            let locals = self.state().locals@;
            if self.declared_here(name@) {
                let w = choose|w: int|
                    0 <= w < locals.len() && (#[trigger] locals[w]).name@ == name@
                        && Self::in_scope(locals, w, depth);
                if w < i {
                    assert(outside);
                    assert(locals[i - 1].depth.is_none() || locals[i - 1].depth.unwrap() >= depth);
                }
            }
        }
        self.add_local(name)
    }

    /// Marks the newest local of the innermost function as initialized;
    /// outside every scope, nothing is done.
    pub(crate) fn mark_initialized(&mut self)
        requires
            old(self).wf(),
        ensures
            final(self).wf(),
            final(self).follows(old(self)),
            final(self).inner_changed(old(self)),
            final(self).errors == old(self).errors,
            final(self).state().chunk == old(self).state().chunk,
            final(self).state().marks == old(self).state().marks,
            final(self).state().upvalues == old(self).state().upvalues,
            final(self).state().locals@.len() == old(self).state().locals@.len(),
            old(self).state().scope_depth == 0 ==> final(self).state().locals@ == old(self).state().locals@,
            old(self).state().scope_depth > 0 ==> final(self).state().locals@.last().depth == Some(
                old(self).state().scope_depth,
            ) && final(self).state().locals@.last().name == old(self).state().locals@.last().name,
            forall|i: int|
                0 <= i < old(self).state().locals@.len() - 1 ==> final(self).state().locals@[i]
                    == old(self).state().locals@[i],
            final(self)@ == old(self)@.mark_initialized(),
    {
        proof {
            reveal(Model::mark_initialized);
        }
        let last = self.states.len() - 1;
        let depth = self.states[last].scope_depth;
        if depth > 0 {
            let newest = self.states[last].locals.len() - 1;
            self.states[last].locals[newest].depth = Some(depth);
            proof {
                self.lemma_inner_view(old(self));
                assert(self.state()@.locals =~= old(self).state()@.locals.update(
                    newest as int,
                    crate::compiler::model::LocalView {
                        depth: Some(depth),
                        ..old(self).state()@.locals.last()
                    },
                ));
            }
        } else {
            proof {
                assert(self.states@ =~= old(self).states@);
            }
        }
    }

    /// Defines the variable declared last: a local is marked initialized,
    /// a global gets `DefineGlobal` with the constant `global`, which
    /// holds its name.
    pub(crate) fn define_variable(&mut self, global: u8)
        requires
            old(self).wf(),
            old(self).state().scope_depth == 0 ==> global < old(self).state().chunk.constants@.len(),
        ensures
            final(self).wf(),
            final(self).follows(old(self)),
            final(self).inner_changed(old(self)),
            final(self).errors == old(self).errors,
            old(self).state().scope_depth == 0 ==> final(self).emitted(
                old(self),
                seq![Op::DefineGlobal.byte(), global],
            ),
            old(self).state().scope_depth > 0 ==> final(self).state().chunk == old(self).state().chunk && final(self).state().locals@.last().depth == Some(
                old(self).state().scope_depth,
            ),
            final(self).state().locals@.len() == old(self).state().locals@.len(),
            final(self)@ == old(self)@.define_variable(global),
    {
        proof {
            reveal(Model::define_variable);
        }
        let last = self.states.len() - 1;
        if self.states[last].scope_depth > 0 {
            self.mark_initialized();
        } else {
            self.emit_bytes(Op::DefineGlobal, global);
        }
    }

    /// The slot of the newest local named `name` in the function at `k`,
    /// if it has one. Reports an error if that local is not initialized
    /// yet.
    pub(crate) fn resolve_local(&mut self, k: usize, name: &Vec<u8>) -> (r: Result<Option<u8>, ()>)
        requires
            old(self).wf(),
            k < old(self).states@.len(),
        ensures
            r.is_err() ==> final(self).errors@.len() > old(self).errors@.len(),
            final(self).wf(),
            final(self).follows(old(self)),
            final(self).idle(old(self)),
            final(self).parser == old(self).parser,
            match r {
                Ok(Some(slot)) => {
                    let locals = old(self).states@[k as int].locals@;
                    &&& slot < locals.len()
                    &&& locals[slot as int].name@ == name@
                    &&& locals[slot as int].depth.is_some()
                    &&& forall|j: int| slot < j < locals.len() ==> (#[trigger] locals[j]).name@ != name@
                    &&& final(self).errors == old(self).errors
                },
                Ok(None) => {
                    let locals = old(self).states@[k as int].locals@;
                    &&& forall|j: int| 0 <= j < locals.len() ==> (#[trigger] locals[j]).name@ != name@
                    &&& final(self).errors == old(self).errors
                },
                Err(_) => {
                    let locals = old(self).states@[k as int].locals@;
                    &&& exists|i: int|
                        0 <= i < locals.len() && (#[trigger] locals[i]).name@ == name@
                            && locals[i].depth.is_none() && forall|j: int|
                            i < j < locals.len() ==> (#[trigger] locals[j]).name@ != name@
                    &&& final(self).errors@.last().message@
                        == "Can't read local variable in its own initializer.".spec_bytes()
                },
            },
            (final(self)@, r) == old(self)@.resolve_local(k as int, name@),
    {
        proof {
            reveal(Model::resolve_local);
        }
        proof {
            lemma_newest(self@.states[k as int].locals, name@);
        }
        let count = self.states[k].locals.len();
        let mut i: usize = count;
        while i > 0
            invariant
                i <= count,
                k < self.states@.len(),
                count == self.states@[k as int].locals@.len(),
                count <= LIMIT,
                *self == *old(self),
                self.wf(),
                forall|j: int|
                    i <= j < count ==> (#[trigger] self.states@[k as int].locals@[j]).name@
                        != name@,
            decreases i,
        {
            let local = &self.states[k].locals[i - 1];
            if bytes_eq(&local.name, name) {
                proof {
                    let views = self@.states[k as int].locals;
                    assert(views[i - 1].name == name@);
                    assert forall|j: int| i <= j < count implies (#[trigger] views[j]).name
                        != name@ by {
                        assert(self.states@[k as int].locals@[j].name@ != name@);
                    }
                    reveal(Model::resolve_local);
                    lemma_newest(views, name@);
                    assert(newest(views, name@) == Some(i - 1));
                }
                if local.depth.is_none() {
                    proof {
                        assert(self.states@[k as int].locals@[i - 1].name@ == name@);
                    }
                    return self.error("Can't read local variable in its own initializer.");
                }
                return Ok(Some((i - 1) as u8));
            }
            i -= 1;
        }
        Ok(None)
    }

    /// The index of the upvalue of the function at `k` for the variable
    /// `index` of the function around it, a local if `is_local` and else
    /// an upvalue: the one that is there, or a new one. Reports an error if
    /// a new one would be one too many.
    pub(crate) fn add_upvalue(&mut self, k: usize, index: u8, is_local: bool) -> (r: Result<u8, ()>)
        requires
            old(self).wf(),
            k < old(self).states@.len(),
        ensures
            r.is_err() ==> final(self).errors@.len() > old(self).errors@.len(),
            final(self).wf(),
            final(self).follows(old(self)),
            final(self).parser == old(self).parser,
            final(self).gc == old(self).gc,
            forall|j: int|
                0 <= j < old(self).states@.len() && j != k ==> final(self).states@[j] == old(self).states@[j],
            final(self).states@[k as int].chunk == old(self).states@[k as int].chunk,
            final(self).states@[k as int].marks == old(self).states@[k as int].marks,
            final(self).states@[k as int].locals == old(self).states@[k as int].locals,
            forall|j: int|
                0 <= j < old(self).states@[k as int].upvalues@.len() ==> final(self).states@[k as int].upvalues@[j] == old(self).states@[k as int].upvalues@[j],
            r.is_ok() ==> r.unwrap() < final(self).states@[k as int].upvalues@.len() && final(self).states@[k as int].upvalues@[r.unwrap() as int].index == index && final(self).states@[k as int].upvalues@[r.unwrap() as int].is_local == is_local && final(self).errors == old(self).errors,
            r.is_err() ==> old(self).states@[k as int].upvalues@.len() == LIMIT && final(self).errors@.last().message@ == "Too many closure variables in function.".spec_bytes(),
            (final(self)@, r) == old(self)@.add_upvalue(k as int, index, is_local),
    {
        proof {
            reveal(Model::add_upvalue);
        }
        proof {
            lemma_position(self@.states[k as int].upvalues, index, is_local);
        }
        let count = self.states[k].upvalues.len();
        let mut i: usize = 0;
        while i < count
            invariant
                i <= count,
                k < self.states@.len(),
                count == self.states@[k as int].upvalues@.len(),
                count <= LIMIT,
                *self == *old(self),
                self.wf(),
                forall|j: int|
                    0 <= j < i ==> !((#[trigger] self.states@[k as int].upvalues@[j]).index == index
                        && self.states@[k as int].upvalues@[j].is_local == is_local),
            decreases count - i,
        {
            let upvalue = self.states[k].upvalues[i];
            if upvalue.index == index && upvalue.is_local == is_local {
                proof {
                    let upvalues = self@.states[k as int].upvalues;
                    assert(upvalues[i as int] == upvalue);
                    reveal(Model::add_upvalue);
                    lemma_position(upvalues, index, is_local);
                    assert(position(upvalues, index, is_local) == Some(i as int));
                }
                return Ok(i as u8);
            }
            i += 1;
        }
        if count >= LIMIT {
            return self.error("Too many closure variables in function.");
        }
        self.states[k].upvalues.push(Upvalue { index, is_local });
        proof {
            assert(self@.states =~= old(self)@.add_upvalue(k as int, index, is_local).0.states);
        }
        Ok(count as u8)
    }

    /// The index of the upvalue of the function at `k` for the variable
    /// `name`, if a function around it has a local of that name: the local
    /// is marked as captured, and every function between gets an upvalue
    /// for it.
    pub(crate) fn resolve_upvalue(&mut self, k: usize, name: &Vec<u8>) -> (r: Result<Option<u8>, ()>)
        requires
            old(self).wf(),
            k < old(self).states@.len(),
        ensures
            r.is_err() ==> final(self).errors@.len() > old(self).errors@.len(),
            final(self).wf(),
            final(self).follows(old(self)),
            final(self).parser == old(self).parser,
            final(self).gc == old(self).gc,
            forall|j: int|
                0 <= j < old(self).states@.len() ==> (#[trigger] final(self).states@[j]).chunk
                    == old(self).states@[j].chunk && final(self).states@[j].marks == old(self).states@[j].marks && final(self).states@[j].locals@.len() == old(self).states@[j].locals@.len(),
            forall|j: int|
                k < j < old(self).states@.len() ==> final(self).states@[j] == old(self).states@[j],
            r.is_ok() && r.unwrap().is_some() ==> r.unwrap().unwrap() < final(self).states@[k as int].upvalues@.len(),
            (final(self)@, r) == old(self)@.resolve_upvalue(k as int, name@),
        decreases k,
    {
        if k == 0 {
            return Ok(None);
        }
        match self.resolve_local(k - 1, name) {
            Err(_) => {
                return Err(());
            },
            Ok(Some(slot)) => {
                let ghost found = *self;
                self.states[k - 1].locals[slot as usize].is_captured = true;
                proof {
                    assert(self.states@[k - 1]@.locals =~= found@.states[k - 1].locals.update(
                        slot as int,
                        crate::compiler::model::LocalView {
                            is_captured: true,
                            ..found@.states[k - 1].locals[slot as int]
                        },
                    ));
                    reveal(Model::capture);
                    assert(self@.states =~= found@.capture(k - 1, slot as int).states);
                }
                return match self.add_upvalue(k, slot, true) {
                    Ok(index) => Ok(Some(index)),
                    Err(_) => Err(()),
                };
            },
            Ok(None) => {},
        }
        match self.resolve_upvalue(k - 1, name) {
            Err(_) => Err(()),
            Ok(Some(index)) => match self.add_upvalue(k, index, false) {
                Ok(index) => Ok(Some(index)),
                Err(_) => Err(()),
            },
            Ok(None) => Ok(None),
        }
    }
}

} // verus!
