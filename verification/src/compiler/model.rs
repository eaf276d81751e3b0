use vstd::prelude::*;
use vstd::string::StringSliceAdditionalSpecFns;
use crate::chunk::Op;
use crate::compiler::driver::Compiler;
use crate::compiler::parser::error_views;
use crate::compiler::parser::location_text;
use crate::compiler::parser::next_token;
use crate::compiler::parser::Error;
use crate::compiler::parser::ErrorView;
use crate::compiler::parser::Parser;
use crate::compiler::state::FunctionKind;
use crate::compiler::state::FunctionState;
use crate::compiler::state::Local;
use crate::compiler::state::Upvalue;
use crate::compiler::state::LIMIT;
use crate::compiler::token::Token;
use crate::compiler::token_kind::TokenKind;

verus! {

/// A token as mathematics.
pub ghost struct TokenView {
    pub kind: TokenKind,
    pub text: Seq<u8>,
    pub line: u32,
}

impl View for Token {
    type V = TokenView;

    open spec fn view(&self) -> TokenView {
        TokenView { kind: self.kind, text: self.text@, line: self.line }
    }
}

/// The token stream as mathematics: the source, how far it is read and
/// the line reached, the token that comes next and the one just taken.
pub ghost struct ParserView {
    pub src: Seq<u8>,
    pub pos: int,
    pub line: u32,
    pub current: TokenView,
    pub previous: TokenView,
}

impl View for Parser {
    type V = ParserView;

    open spec fn view(&self) -> ParserView {
        ParserView {
            src: self.scanner.source@,
            pos: self.scanner.current as int,
            line: self.scanner.line_no,
            current: self.current@,
            previous: self.previous@,
        }
    }
}

impl ParserView {
    /// How much is left to parse.
    pub open spec fn measure(self) -> nat {
        (self.src.len() - self.pos + (if self.current.kind == TokenKind::Eof {
            0int
        } else {
            1int
        })) as nat
    }

    /// The stream one token on, and the errors that the tokens passed
    /// over stand for, which cannot be read.
    #[verifier::opaque]
    pub open spec fn advance(self) -> (ParserView, Seq<ErrorView>) {
        let (next, errors) = next_token(self.src, self.pos, self.line);
        (
            ParserView {
                src: self.src,
                pos: next.end,
                line: next.line,
                current: TokenView { kind: next.kind, text: next.text, line: next.line },
                previous: self.current,
            },
            errors,
        )
    }
}

/// A local variable as mathematics.
pub ghost struct LocalView {
    pub name: Seq<u8>,
    pub depth: Option<usize>,
    pub is_captured: bool,
}

impl View for Local {
    type V = LocalView;

    open spec fn view(&self) -> LocalView {
        LocalView { name: self.name@, depth: self.depth, is_captured: self.is_captured }
    }
}

/// The locals of a list, as mathematics.
pub open spec fn local_views(locals: Seq<Local>) -> Seq<LocalView> {
    locals.map_values(|local: Local| local@)
}

/// A constant as mathematics: a number, by the text it is written as; a
/// string, by its text; or a function.
pub ghost enum ConstView {
    Number(Seq<u8>),
    Text(Seq<u8>),
    Function(FunctionView),
}

/// A compiled function as mathematics: its name, unless it is the
/// script; its code, the line that each byte of it comes from, its
/// constants, and how many parameters and captured variables it has.
pub ghost struct FunctionView {
    pub name: Option<Seq<u8>>,
    pub code: Seq<u8>,
    pub lines: Seq<u32>,
    pub consts: Seq<ConstView>,
    pub arity: usize,
    pub upvalues: nat,
}

/// A function under construction as mathematics: its code, the line
/// that each byte of it comes from, its constants and how many they are,
/// its variables, and how deep in scopes it stands.
pub ghost struct StateView {
    pub kind: FunctionKind,
    pub name: Option<Seq<u8>>,
    pub code: Seq<u8>,
    pub lines: Seq<u32>,
    pub pool: nat,
    pub consts: Seq<ConstView>,
    pub locals: Seq<LocalView>,
    pub upvalues: Seq<Upvalue>,
    pub scope_depth: usize,
    pub arity: usize,
}

impl View for FunctionState {
    type V = StateView;

    open spec fn view(&self) -> StateView {
        StateView {
            kind: self.fn_kind,
            name: self.name_text@,
            code: self.chunk.bytecode@,
            lines: self.chunk.lines@,
            pool: self.chunk.constants@.len(),
            consts: self.consts@,
            locals: local_views(self.locals@),
            upvalues: self.upvalues@,
            scope_depth: self.scope_depth,
            arity: self.arity,
        }
    }
}

/// The functions of a list, as mathematics.
pub open spec fn state_views(states: Seq<FunctionState>) -> Seq<StateView> {
    states.map_values(|state: FunctionState| state@)
}

/// The newest of `locals` that is named `name`, if one is.
pub open spec fn newest(locals: Seq<LocalView>, name: Seq<u8>) -> Option<int>
    decreases locals.len(),
{
    if locals.len() == 0 {
        None
    } else if locals.last().name == name {
        Some(locals.len() - 1)
    } else {
        newest(locals.drop_last(), name)
    }
}

/// The newest local named `name` is the one behind which none has that
/// name.
pub proof fn lemma_newest(locals: Seq<LocalView>, name: Seq<u8>)
    ensures
        match newest(locals, name) {
            Some(i) => 0 <= i < locals.len() && locals[i].name == name && forall|j: int|
                i < j < locals.len() ==> (#[trigger] locals[j]).name != name,
            None => forall|j: int| 0 <= j < locals.len() ==> (#[trigger] locals[j]).name != name,
        },
    decreases locals.len(),
{
    if locals.len() > 0 && locals.last().name != name {
        lemma_newest(locals.drop_last(), name);
        assert forall|j: int| 0 <= j < locals.len() - 1 implies locals[j] == locals.drop_last()[j] by {}
    }
}

/// Whether one of `locals` that belongs to the scope of depth `depth`,
/// or to none yet, with no local of a scope around it behind it, is
/// named `name`.
pub open spec fn declared(locals: Seq<LocalView>, depth: usize, name: Seq<u8>) -> bool
    decreases locals.len(),
{
    if locals.len() == 0 {
        false
    } else if locals.last().depth.is_some() && locals.last().depth.unwrap() < depth {
        false
    } else {
        locals.last().name == name || declared(locals.drop_last(), depth, name)
    }
}

/// The first of `upvalues` that stands for the variable `index`, a
/// local if `is_local`, if one does.
pub open spec fn position(upvalues: Seq<Upvalue>, index: u8, is_local: bool) -> Option<int>
    decreases upvalues.len(),
{
    if upvalues.len() == 0 {
        None
    } else {
        match position(upvalues.drop_last(), index, is_local) {
            Some(i) => Some(i),
            None => if upvalues.last().index == index && upvalues.last().is_local == is_local {
                Some(upvalues.len() - 1)
            } else {
                None
            },
        }
    }
}

/// The first upvalue for a variable is the one before which none stands
/// for it.
pub proof fn lemma_position(upvalues: Seq<Upvalue>, index: u8, is_local: bool)
    ensures
        match position(upvalues, index, is_local) {
            Some(i) => 0 <= i < upvalues.len() && upvalues[i].index == index && upvalues[i].is_local
                == is_local && forall|j: int|
                0 <= j < i ==> !((#[trigger] upvalues[j]).index == index && upvalues[j].is_local
                    == is_local),
            None => forall|j: int|
                0 <= j < upvalues.len() ==> !((#[trigger] upvalues[j]).index == index
                    && upvalues[j].is_local == is_local),
        },
    decreases upvalues.len(),
{
    if upvalues.len() > 0 {
        lemma_position(upvalues.drop_last(), index, is_local);
        assert forall|j: int| 0 <= j < upvalues.len() - 1 implies upvalues[j]
            == upvalues.drop_last()[j] by {}
    }
}

impl StateView {
    /// The function that the state makes, once it has its code.
    pub open spec fn finished(self) -> FunctionView {
        FunctionView {
            name: self.name,
            code: self.code,
            lines: self.lines,
            consts: self.consts,
            arity: self.arity,
            upvalues: self.upvalues.len(),
        }
    }

    /// The state with the instruction `bytes` emitted, which comes from
    /// the line `line`.
    pub open spec fn emit(self, bytes: Seq<u8>, line: u32) -> StateView {
        StateView {
            code: self.code + bytes,
            lines: self.lines + Seq::new(bytes.len(), |i: int| line),
            ..self
        }
    }

    /// The state with the locals gone that stand deeper than its scope
    /// depth, each with a `Pop`, or with a `CloseUpvalue` if a closure has
    /// captured it, emitted from the line `line`. Slot zero stays.
    pub open spec fn drop_locals(self, line: u32) -> StateView
        decreases self.locals.len(),
    {
        if self.locals.len() <= 1 {
            self
        } else if self.locals.last().depth.is_some() && self.locals.last().depth.unwrap()
            > self.scope_depth {
            StateView {
                code: self.code + seq![
                    if self.locals.last().is_captured {
                        Op::CloseUpvalue.byte()
                    } else {
                        Op::Pop.byte()
                    },
                ],
                lines: self.lines.push(line),
                locals: self.locals.drop_last(),
                ..self
            }.drop_locals(line)
        } else {
            self
        }
    }
}

/// The code at the end of a function of kind `kind`: the return of the
/// instance, from an initializer, and of nil from anything else.
pub open spec fn return_bytes(kind: FunctionKind) -> Seq<u8> {
    if kind == FunctionKind::Initializer {
        seq![Op::GetLocal.byte(), 0u8, Op::Return.byte()]
    } else {
        seq![Op::Nil.byte(), Op::Return.byte()]
    }
}

/// A function of kind `kind` named `name` whose construction begins: it
/// has no code yet, and slot zero is taken, by `this` unless it is a plain
/// function.
pub open spec fn fresh(kind: FunctionKind, name: Option<Seq<u8>>) -> StateView {
    StateView {
        kind,
        name,
        code: Seq::empty(),
        lines: Seq::empty(),
        pool: 0,
        consts: Seq::empty(),
        locals: seq![
            LocalView {
                name: if kind == FunctionKind::Function {
                    Seq::empty()
                } else {
                    "this".spec_bytes()
                },
                depth: Some(0usize),
                is_captured: false,
            },
        ],
        upvalues: Seq::empty(),
        scope_depth: 0,
        arity: 0,
    }
}

/// The compiler as mathematics: the token stream, the errors reported,
/// the functions under construction, and for each class around whether it
/// has a superclass.
pub ghost struct Model {
    pub parser: ParserView,
    pub errors: Seq<ErrorView>,
    pub states: Seq<StateView>,
    pub classes: Seq<bool>,
}

impl<F: Fn(&Vec<u8>) -> u64> View for Compiler<F> {
    type V = Model;

    open spec fn view(&self) -> Model {
        Model {
            parser: self.parser@,
            errors: error_views(self.errors@),
            states: state_views(self.states@),
            classes: self.classes@,
        }
    }
}

impl<F: Fn(&Vec<u8>) -> u64> Compiler<F> {
    /// Where only the innermost function differs between two compilers,
    /// so it is with them as mathematics.
    pub proof fn lemma_inner_view(&self, before: &Self)
        requires
            before.states@.len() >= 1,
            self.inner_changed(before),
            self.errors == before.errors,
        ensures
            self@ == before@.with_state(self.state()@),
    {
        assert(self@.states =~= before@.states.update(
            before@.states.len() - 1,
            self.state()@,
        ));
    }

    /// An instruction emitted by the compiler is emitted by it as
    /// mathematics.
    pub proof fn lemma_emitted_view(&self, before: &Self, bytes: Seq<u8>)
        requires
            before.states@.len() >= 1,
            self.emitted(before, bytes),
        ensures
            self@ == before@.emit(bytes),
    {
        reveal(Model::emit);
        assert(self@.states =~= before@.states.update(
            before@.states.len() - 1,
            self.state()@,
        ));
        assert(self.state()@ == before.state()@.emit(bytes, before.parser.previous.line));
    }

    /// An error reported by the compiler at `token` is reported by it as
    /// mathematics.
    pub proof fn lemma_reported_view(&self, before: &Self, token: TokenView, message: Seq<u8>)
        requires
            self.idle(before),
            self.parser == before.parser,
            self.errors@.len() == before.errors@.len() + 1,
            self.errors@.drop_last() == before.errors@,
            self.errors@.last().line == token.line,
            self.errors@.last().message@ == message,
            location_text(self.errors@.last().at().0, self.errors@.last().at().1) == location_text(
                token.kind,
                token.text,
            ),
        ensures
            self@ == before@.report(token, message),
    {
        reveal(Model::report);
        assert(self@.errors =~= before@.errors.push(self.errors@.last()@)) by {
            assert forall|i: int| 0 <= i < before.errors@.len() implies self.errors@[i]
                == before.errors@[i] by {
                assert(self.errors@.drop_last()[i] == self.errors@[i]);
            }
        }
    }
}

/// Two instructions emitted one after the other are both emitted at once.
pub proof fn lemma_emit_twice(m: Model, first: Seq<u8>, second: Seq<u8>)
    requires
        m.states.len() >= 1,
    ensures
        m.emit(first).emit(second) == m.emit(first + second),
{
    reveal(Model::emit);
    assert((m.state().code + first) + second =~= m.state().code + (first + second));
    let line = m.parser.previous.line;
    assert((m.state().lines + Seq::new(first.len(), |i: int| line)) + Seq::new(
        second.len(),
        |i: int| line,
    ) =~= m.state().lines + Seq::new((first + second).len(), |i: int| line));
    assert(m.emit(first).emit(second).states =~= m.emit(first + second).states);
}

impl Model {
    /// The innermost function under construction.
    pub open spec fn state(self) -> StateView {
        self.states.last()
    }

    /// The compiler with `state` for its innermost function.
    pub open spec fn with_state(self, state: StateView) -> Model {
        Model { states: self.states.update(self.states.len() - 1, state), ..self }
    }

    /// The compiler has not gone back in the source since `before`.
    pub open spec fn within(self, before: Model) -> bool {
        self.parser.measure() <= before.parser.measure()
    }

    /// The compiler has gone on in the source since `before`.
    pub open spec fn past(self, before: Model) -> bool {
        self.parser.measure() < before.parser.measure()
    }

    /// The compiler with the instruction `bytes` emitted.
    #[verifier::opaque]
    pub open spec fn emit(self, bytes: Seq<u8>) -> Model {
        self.with_state(self.state().emit(bytes, self.parser.previous.line))
    }

    /// The compiler with the error `message` reported at `token`.
    #[verifier::opaque]
    pub open spec fn report(self, token: TokenView, message: Seq<u8>) -> Model {
        Model {
            errors: self.errors.push(
                ErrorView {
                    line: token.line,
                    place: location_text(token.kind, token.text),
                    message,
                },
            ),
            ..self
        }
    }

    /// The compiler with the error `message` reported at the token just
    /// taken.
    #[verifier::opaque]
    pub open spec fn fail(self, message: Seq<u8>) -> Model {
        self.report(self.parser.previous, message)
    }

    /// The compiler with the error `message` reported at the token that
    /// comes next.
    #[verifier::opaque]
    pub open spec fn fail_at_current(self, message: Seq<u8>) -> Model {
        self.report(self.parser.current, message)
    }

    /// The compiler one token on: tokens that cannot be read are reported
    /// and passed over.
    #[verifier::opaque]
    pub open spec fn advance(self) -> Model {
        Model { parser: self.parser.advance().0, errors: self.errors + self.parser.advance().1, ..self }
    }

    /// The compiler one token on, with nothing reported.
    #[verifier::opaque]
    pub open spec fn skip(self) -> Model {
        Model { parser: self.parser.advance().0, ..self }
    }

    /// The compiler with the token that comes next taken, if it is of kind
    /// `kind`; and whether it is.
    pub open spec fn check_eat(self, kind: TokenKind) -> (Model, bool) {
        if self.parser.current.kind == kind {
            (self.advance(), true)
        } else {
            (self, false)
        }
    }

    /// The compiler with the token that comes next taken, if it is of kind
    /// `kind`, and with the error `message` reported at it otherwise.
    #[verifier::opaque]
    pub open spec fn consume(self, kind: TokenKind, message: Seq<u8>) -> (Model, Result<(), ()>) {
        if self.parser.current.kind == kind {
            (self.advance(), Ok(()))
        } else {
            (self.fail_at_current(message), Err(()))
        }
    }

    /// The compiler one scope deeper.
    #[verifier::opaque]
    pub open spec fn begin_scope(self) -> (Model, Result<(), ()>) {
        if self.state().scope_depth == usize::MAX {
            (self.fail("Too many nested scopes.".spec_bytes()), Err(()))
        } else {
            (
                self.with_state(
                    StateView { scope_depth: (self.state().scope_depth + 1) as usize, ..self.state() },
                ),
                Ok(()),
            )
        }
    }

    /// The compiler with the innermost scope left, and its locals gone.
    #[verifier::opaque]
    pub open spec fn end_scope(self) -> Model {
        self.with_state(
            StateView {
                scope_depth: (self.state().scope_depth - 1) as usize,
                ..self.state()
            }.drop_locals(self.parser.previous.line),
        )
    }

    /// The compiler with one more local, named `name`, if there is room.
    #[verifier::opaque]
    pub open spec fn add_local(self, name: Seq<u8>) -> (Model, Result<(), ()>) {
        if self.state().locals.len() >= LIMIT {
            (self.fail("Too many local variables in function.".spec_bytes()), Err(()))
        } else {
            (
                self.with_state(
                    StateView {
                        locals: self.state().locals.push(
                            LocalView { name, depth: None, is_captured: false },
                        ),
                        ..self.state()
                    },
                ),
                Ok(()),
            )
        }
    }

    /// The compiler with the variable declared that the token just taken
    /// names: inside a scope it becomes a local, unless the scope has one
    /// of that name.
    #[verifier::opaque]
    pub open spec fn declare_variable(self) -> (Model, Result<(), ()>) {
        let name = self.parser.previous.text;
        if self.state().scope_depth == 0 {
            (self, Ok(()))
        } else if declared(self.state().locals, self.state().scope_depth, name) {
            (
                self.fail(
                    "Variable ".spec_bytes() + name + " already defined in this scope.".spec_bytes(),
                ),
                Err(()),
            )
        } else {
            self.add_local(name)
        }
    }

    /// The compiler with the newest local marked as initialized, inside a
    /// scope.
    #[verifier::opaque]
    pub open spec fn mark_initialized(self) -> Model {
        let state = self.state();
        if state.scope_depth > 0 {
            self.with_state(
                StateView {
                    locals: state.locals.update(
                        state.locals.len() - 1,
                        LocalView { depth: Some(state.scope_depth), ..state.locals.last() },
                    ),
                    ..state
                },
            )
        } else {
            self
        }
    }

    /// The compiler with the variable defined that was declared last.
    #[verifier::opaque]
    pub open spec fn define_variable(self, global: u8) -> Model {
        if self.state().scope_depth > 0 {
            self.mark_initialized()
        } else {
            self.emit(seq![Op::DefineGlobal.byte(), global])
        }
    }

    /// The slot of the newest local of the function at `k` that is named
    /// `name`, if it has one; an error if that local is not initialized.
    #[verifier::opaque]
    pub open spec fn resolve_local(self, k: int, name: Seq<u8>) -> (Model, Result<Option<u8>, ()>) {
        let locals = self.states[k].locals;
        match newest(locals, name) {
            Some(i) => if locals[i].depth.is_none() {
                (
                    self.fail("Can't read local variable in its own initializer.".spec_bytes()),
                    Err(()),
                )
            } else {
                (self, Ok(Some(i as u8)))
            },
            None => (self, Ok(None)),
        }
    }

    /// The upvalue of the function at `k` for the variable `index` of the
    /// function around it: the one that is there, or a new one if there is
    /// room.
    #[verifier::opaque]
    pub open spec fn add_upvalue(self, k: int, index: u8, is_local: bool) -> (Model, Result<u8, ()>) {
        let upvalues = self.states[k].upvalues;
        match position(upvalues, index, is_local) {
            Some(i) => (self, Ok(i as u8)),
            None => if upvalues.len() >= LIMIT {
                (self.fail("Too many closure variables in function.".spec_bytes()), Err(()))
            } else {
                (
                    Model {
                        states: self.states.update(
                            k,
                            StateView {
                                upvalues: upvalues.push(Upvalue { index, is_local }),
                                ..self.states[k]
                            },
                        ),
                        ..self
                    },
                    Ok(upvalues.len() as u8),
                )
            },
        }
    }

    /// The compiler with the local at `slot` of the function at `k` marked
    /// as captured.
    #[verifier::opaque]
    pub open spec fn capture(self, k: int, slot: int) -> Model {
        Model {
            states: self.states.update(
                k,
                StateView {
                    locals: self.states[k].locals.update(
                        slot,
                        LocalView { is_captured: true, ..self.states[k].locals[slot] },
                    ),
                    ..self.states[k]
                },
            ),
            ..self
        }
    }

    /// The upvalue of the function at `k` for the variable `name`, if a
    /// function around it has a local of that name: the local is marked as
    /// captured, and every function between gets an upvalue for it.
    pub open spec fn resolve_upvalue(self, k: int, name: Seq<u8>) -> (Model, Result<Option<u8>, ()>)
        decreases k,
    {
        if k <= 0 {
            (self, Ok(None))
        } else {
            let (found, local) = self.resolve_local(k - 1, name);
            match local {
                Err(_) => (found, Err(())),
                Ok(Some(slot)) => {
                    let (added, index) = found.capture(k - 1, slot as int).add_upvalue(
                        k,
                        slot,
                        true,
                    );
                    match index {
                        Ok(index) => (added, Ok(Some(index))),
                        Err(_) => (added, Err(())),
                    }
                },
                Ok(None) => {
                    let (outer, upvalue) = found.resolve_upvalue(k - 1, name);
                    match upvalue {
                        Err(_) => (outer, Err(())),
                        Ok(Some(index)) => {
                            let (added, index) = outer.add_upvalue(k, index, false);
                            match index {
                                Ok(index) => (added, Ok(Some(index))),
                                Err(_) => (added, Err(())),
                            }
                        },
                        Ok(None) => (outer, Ok(None)),
                    }
                },
            }
        }
    }

    /// The compiler with the constant `constant` added to the innermost
    /// function, if there is room; and its index.
    #[verifier::opaque]
    pub open spec fn make_constant(self, constant: ConstView) -> (Model, Result<u8, ()>) {
        if self.state().pool >= LIMIT {
            (self.fail("Too many constants in one chunk.".spec_bytes()), Err(()))
        } else {
            (
                self.with_state(
                    StateView {
                        pool: self.state().pool + 1,
                        consts: self.state().consts.push(constant),
                        ..self.state()
                    },
                ),
                Ok(self.state().pool as u8),
            )
        }
    }

    /// The compiler with the jump `op` emitted, its operand waiting to be
    /// patched; and where the operand stands.
    #[verifier::opaque]
    pub open spec fn emit_jump(self, op: Op) -> (Model, int) {
        (self.emit(seq![op.byte(), 255u8, 255u8]), self.state().code.len() as int + 1)
    }

    /// The compiler with the jump whose operand stands at `site` patched
    /// to lead to the end of the code, if that is not too far.
    #[verifier::opaque]
    pub open spec fn patch_jump(self, site: int) -> (Model, Result<(), ()>) {
        let distance = self.state().code.len() - site - 2;
        if distance > u16::MAX {
            (self.fail("Too much code to jump over.".spec_bytes()), Err(()))
        } else {
            (
                self.with_state(
                    StateView {
                        code: self.state().code.update(site, (distance / 256) as u8).update(
                            site + 1,
                            (distance % 256) as u8,
                        ),
                        ..self.state()
                    },
                ),
                Ok(()),
            )
        }
    }

    /// The compiler with a jump back to `start` emitted, if that is not
    /// too far.
    #[verifier::opaque]
    pub open spec fn emit_loop(self, start: int) -> (Model, Result<(), ()>) {
        let distance = self.state().code.len() - start + 3;
        if distance > u16::MAX {
            (
                self.emit(seq![Op::Loop.byte(), 255u8, 255u8]).fail(
                    "Loop body too large.".spec_bytes(),
                ),
                Err(()),
            )
        } else {
            (
                self.emit(seq![Op::Loop.byte(), (distance / 256) as u8, (distance % 256) as u8]),
                Ok(()),
            )
        }
    }

    /// The compiler with the return emitted that ends the innermost
    /// function.
    #[verifier::opaque]
    pub open spec fn emit_return(self) -> Model {
        self.emit(return_bytes(self.state().kind))
    }

    /// The compiler with the construction of a function of kind `kind`
    /// begun, which is named by the token just taken unless it is the
    /// script.
    #[verifier::opaque]
    pub open spec fn init(self, kind: FunctionKind) -> Model {
        Model {
            states: self.states.push(
                fresh(
                    kind,
                    if kind == FunctionKind::Script {
                        None
                    } else {
                        Some(self.parser.previous.text)
                    },
                ),
            ),
            ..self
        }
    }

    /// The compiler with the innermost function ended, and the variables
    /// that function captures.
    #[verifier::opaque]
    pub open spec fn end_function(self) -> (Model, Seq<Upvalue>) {
        (Model { states: self.states.drop_last(), ..self }, self.state().upvalues)
    }

    /// The compiler with the constant `constant` added and the `Constant`
    /// emitted that loads it.
    #[verifier::opaque]
    pub open spec fn emit_constant(self, constant: ConstView) -> (Model, Result<(), ()>) {
        let (made, index) = self.make_constant(constant);
        match index {
            Ok(index) => (made.emit(seq![Op::Constant.byte(), index]), Ok(())),
            Err(_) => (made, Err(())),
        }
    }
}

} // verus!
