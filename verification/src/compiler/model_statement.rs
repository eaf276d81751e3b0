use vstd::prelude::*;
use vstd::string::StringSliceAdditionalSpecFns;
use crate::chunk::Op;
use crate::compiler::model::ConstView;
use crate::compiler::model::Model;
use crate::compiler::model::StateView;
use crate::compiler::state::pair_bytes;
use crate::compiler::state::FunctionKind;
use crate::compiler::token_kind::TokenKind;

verus! {

/// Whether a statement may begin with a token of kind `kind`.
pub open spec fn begins_statement(kind: TokenKind) -> bool {
    kind == TokenKind::Class || kind == TokenKind::Fun || kind == TokenKind::Var || kind
        == TokenKind::For || kind == TokenKind::If || kind == TokenKind::While || kind
        == TokenKind::Print || kind == TokenKind::Return
}

/// The place `site` in the code, as mathematics.
pub open spec fn site_of(site: Result<usize, ()>) -> Result<int, ()> {
    match site {
        Ok(site) => Ok(site as int),
        Err(_) => Err(()),
    }
}

/// The place `site` in the code, if there is one, as mathematics.
pub open spec fn option_site(site: Option<usize>) -> Option<int> {
    match site {
        Some(site) => Some(site as int),
        None => None,
    }
}

/// The place `site` in the code, if there is one, as mathematics.
pub open spec fn sites_of(site: Result<Option<usize>, ()>) -> Result<Option<int>, ()> {
    match site {
        Ok(site) => Ok(option_site(site)),
        Err(_) => Err(()),
    }
}

/// The compiler at the start of the source `src`: the first token is
/// read and comes next, and the script is the only function under
/// construction.
pub open spec fn initial(src: Seq<u8>) -> Model {
    unread(src).advance()
}

/// The compiler before any token of the source `src` is read.
pub open spec fn unread(src: Seq<u8>) -> Model {
    Model {
        parser: crate::compiler::model::ParserView {
            src,
            pos: 0,
            line: 1,
            current: crate::compiler::model::TokenView {
                kind: TokenKind::Sof,
                text: Seq::empty(),
                line: 1,
            },
            previous: crate::compiler::model::TokenView {
                kind: TokenKind::Sof,
                text: Seq::empty(),
                line: 1,
            },
        },
        errors: Seq::empty(),
        states: seq![crate::compiler::model::fresh(FunctionKind::Script, None)],
        classes: Seq::empty(),
    }
}

/// The compiler after the whole of the source `src` is compiled.
pub open spec fn compiled(src: Seq<u8>) -> Model {
    initial(src).program().emit_return()
}

/// What the compiler does with statements and declarations, as
/// mathematics. Each function gives the compiler after the construct is
/// compiled, and whether it was compiled without an error. Where a
/// function goes on after a part is compiled, it does so only if the
/// compiler has not gone back in the source, which makes the functions
/// total; the compiler never goes back, so the other case does not
/// arise.
impl Model {
    /// The compiler with tokens passed over, in silence, up to the end of
    /// a statement or to a token that may begin one.
    pub open spec fn synchronize(self) -> Model
        decreases self.parser.measure(),
    {
        if self.parser.current.kind == TokenKind::Eof || self.parser.previous.kind
            == TokenKind::Semicolon || begins_statement(self.parser.current.kind) {
            self
        } else {
            let next = self.skip();
            if !next.past(self) {
                next
            } else {
                next.synchronize()
            }
        }
    }

    /// The whole source: every declaration up to its end.
    pub open spec fn program(self) -> Model
        decreases self.parser.measure(), 60nat,
    {
        if self.parser.current.kind == TokenKind::Eof {
            self
        } else {
            let next = self.declaration();
            if !next.past(self) {
                next
            } else {
                next.program()
            }
        }
    }

    /// A declaration: of a class, a function or a variable, or a
    /// statement. After an error, tokens are passed over up to where the
    /// next statement may begin.
    pub open spec fn declaration(self) -> Model
        decreases self.parser.measure(), 34nat,
    {
        let taken = self.advance();
        let kind = self.parser.current.kind;
        let (compiled, went) = if kind == TokenKind::Class || kind == TokenKind::Fun || kind
            == TokenKind::Var {
            if !taken.past(self) {
                (taken, Err(()))
            } else if kind == TokenKind::Class {
                taken.class_declaration()
            } else if kind == TokenKind::Fun {
                taken.fun_declaration()
            } else {
                taken.var_declaration()
            }
        } else {
            self.statement()
        };
        if went.is_err() {
            compiled.synchronize()
        } else {
            compiled
        }
    }

    /// A statement.
    pub open spec fn statement(self) -> (Model, Result<(), ()>)
        decreases self.parser.measure(), 32nat,
    {
        let taken = self.advance();
        let kind = self.parser.current.kind;
        if kind == TokenKind::Print || kind == TokenKind::For || kind == TokenKind::If || kind
            == TokenKind::Return || kind == TokenKind::While || kind == TokenKind::LBrace {
            if !taken.past(self) {
                (taken, Err(()))
            } else if kind == TokenKind::Print {
                taken.print_statement()
            } else if kind == TokenKind::For {
                taken.for_statement()
            } else if kind == TokenKind::If {
                taken.if_statement()
            } else if kind == TokenKind::Return {
                taken.return_statement()
            } else if kind == TokenKind::While {
                taken.while_statement()
            } else {
                let (scoped, went) = taken.begin_scope();
                if went.is_err() || !scoped.past(self) {
                    (scoped, Err(()))
                } else {
                    let (inner, went) = scoped.block();
                    (inner.end_scope(), went)
                }
            }
        } else {
            self.expression_statement()
        }
    }

    /// The declarations of a block, up to its closing brace.
    pub open spec fn block(self) -> (Model, Result<(), ()>)
        decreases self.parser.measure(), 36nat,
    {
        self.declarations().consume(TokenKind::RBrace, "Expect '}' after block.".spec_bytes())
    }

    /// Every declaration up to a closing brace or the end of the source.
    pub open spec fn declarations(self) -> Model
        decreases self.parser.measure(), 35nat,
    {
        if self.parser.current.kind == TokenKind::RBrace || self.parser.current.kind
            == TokenKind::Eof {
            self
        } else {
            let next = self.declaration();
            if !next.past(self) {
                next
            } else {
                next.declarations()
            }
        }
    }

    /// An expression whose value is dropped.
    #[verifier::opaque]
    pub open spec fn expression_statement(self) -> (Model, Result<(), ()>)
    {
        let (value, went) = self.expression();
        if went.is_err() {
            (value, Err(()))
        } else {
            let (ended, went) = value.consume(
                TokenKind::Semicolon,
                "Expect ';' after expression.".spec_bytes(),
            );
            if went.is_err() {
                (ended, Err(()))
            } else {
                (ended.emit(seq![Op::Pop.byte()]), Ok(()))
            }
        }
    }

    /// `print`, which is taken, and the value to print.
    #[verifier::opaque]
    pub open spec fn print_statement(self) -> (Model, Result<(), ()>)
    {
        let (value, went) = self.expression();
        if went.is_err() {
            (value, Err(()))
        } else {
            let (ended, went) = value.consume(
                TokenKind::Semicolon,
                "Expect ';' after value.".spec_bytes(),
            );
            if went.is_err() {
                (ended, Err(()))
            } else {
                (ended.emit(seq![Op::Print.byte()]), Ok(()))
            }
        }
    }

    /// `return`, which is taken, and the value to return if there is
    /// one. The script returns nothing, and an initializer no value.
    #[verifier::opaque]
    pub open spec fn return_statement(self) -> (Model, Result<(), ()>)
    {
        let kind = self.state().kind;
        if kind == FunctionKind::Script {
            (self.fail("Can't return from top-level code.".spec_bytes()), Err(()))
        } else if self.parser.current.kind == TokenKind::Semicolon {
            (self.advance().emit_return(), Ok(()))
        } else if kind == FunctionKind::Initializer {
            (self.fail("Can't return a value from an initializer.".spec_bytes()), Err(()))
        } else {
            let (value, went) = self.expression();
            if went.is_err() {
                (value, Err(()))
            } else {
                let (ended, went) = value.consume(
                    TokenKind::Semicolon,
                    "Expect ';' after return value.".spec_bytes(),
                );
                if went.is_err() {
                    (ended, Err(()))
                } else {
                    (ended.emit(seq![Op::Return.byte()]), Ok(()))
                }
            }
        }
    }

    /// A condition in parentheses, with the jump that is taken if it is
    /// false and the `Pop` that drops it if it is true; and where the
    /// operand of the jump stands. The message `opening` is for a missing
    /// opening parenthesis.
    #[verifier::opaque]
    pub open spec fn condition(self, opening: Seq<u8>) -> (Model, Result<int, ()>)
    {
        let (opened, went) = self.consume(TokenKind::LParen, opening);
        if went.is_err() || !opened.within(self) {
            (opened, Err(()))
        } else {
            let (tested, went) = opened.expression();
            if went.is_err() {
                (tested, Err(()))
            } else {
                let (closed, went) = tested.consume(
                    TokenKind::RParen,
                    "Expect ')' after condition.".spec_bytes(),
                );
                if went.is_err() {
                    (closed, Err(()))
                } else {
                    let (jumped, site) = closed.emit_jump(Op::JumpIfFalse);
                    (jumped.emit(seq![Op::Pop.byte()]), Ok(site))
                }
            }
        }
    }

    /// `if`, which is taken: the condition, a jump over the first branch
    /// if it is false, the branch, a jump over the second, and the second
    /// if there is one.
    pub open spec fn if_statement(self) -> (Model, Result<(), ()>)
        decreases self.parser.measure(), 38nat,
    {
        let (tested, then_site) = self.condition("Expect '(' after 'if'.".spec_bytes());
        match then_site {
            Err(_) => (tested, Err(())),
            Ok(then_site) => if !tested.within(self) {
                (tested, Err(()))
            } else {
                let (first, went) = tested.statement();
                if went.is_err() || !first.within(self) {
                    (first, Err(()))
                } else {
                    first.else_branch(then_site)
                }
            },
        }
    }

    /// What follows the first branch of an `if` whose jump over that
    /// branch has its operand at `then_site`: the jump over the second
    /// branch, and that branch if there is one.
    pub open spec fn else_branch(self, then_site: int) -> (Model, Result<(), ()>)
        decreases self.parser.measure(), 37nat,
    {
        let (jumped, else_site) = self.emit_jump(Op::Jump);
        let (patched, went) = jumped.patch_jump(then_site);
        if went.is_err() {
            (patched, Err(()))
        } else {
            let popped = patched.emit(seq![Op::Pop.byte()]);
            if popped.parser.current.kind == TokenKind::Else {
                let taken = popped.advance();
                if !taken.within(self) {
                    (taken, Err(()))
                } else {
                    let (second, went) = taken.statement();
                    if went.is_err() {
                        (second, Err(()))
                    } else {
                        second.patch_jump(else_site)
                    }
                }
            } else {
                popped.patch_jump(else_site)
            }
        }
    }

    /// `while`, which is taken: the condition, a jump out if it is
    /// false, the body, and a jump back to the condition.
    pub open spec fn while_statement(self) -> (Model, Result<(), ()>)
        decreases self.parser.measure(), 38nat,
    {
        let loop_start = self.state().code.len() as int;
        let (tested, exit_site) = self.condition("Expect '(' after 'while'.".spec_bytes());
        match exit_site {
            Err(_) => (tested, Err(())),
            Ok(exit_site) => if !tested.within(self) {
                (tested, Err(()))
            } else {
                let (body, went) = tested.statement();
                if went.is_err() {
                    (body, Err(()))
                } else {
                    body.loop_end(loop_start, Some(exit_site))
                }
            },
        }
    }

    /// The end of a loop: the jump back to `loop_start`, and the landing
    /// of the jump out of the loop, if it has one, with the `Pop` that
    /// drops the condition.
    #[verifier::opaque]
    pub open spec fn loop_end(self, loop_start: int, exit_site: Option<int>) -> (
        Model,
        Result<(), ()>,
    ) {
        let (looped, went) = self.emit_loop(loop_start);
        if went.is_err() {
            (looped, Err(()))
        } else {
            match exit_site {
                Some(site) => {
                    let (patched, went) = looped.patch_jump(site);
                    if went.is_err() {
                        (patched, Err(()))
                    } else {
                        (patched.emit(seq![Op::Pop.byte()]), Ok(()))
                    }
                },
                None => (looped, Ok(())),
            }
        }
    }

    /// `for`, which is taken, in a scope of its own.
    pub open spec fn for_statement(self) -> (Model, Result<(), ()>)
        decreases self.parser.measure(), 40nat,
    {
        let (scoped, went) = self.begin_scope();
        if went.is_err() || !scoped.within(self) {
            (scoped, Err(()))
        } else {
            let (compiled, went) = scoped.for_clauses();
            (compiled.end_scope(), went)
        }
    }

    /// The clauses and the body of a `for`: the initializer; the
    /// condition, with a jump out if it is false; the increment, which the
    /// body jumps over at first and loops back to; and the body.
    pub open spec fn for_clauses(self) -> (Model, Result<(), ()>)
        decreases self.parser.measure(), 38nat,
    {
        let (begun, went) = self.for_initializer();
        if went.is_err() || !begun.within(self) {
            (begun, Err(()))
        } else {
            let loop_start = begun.state().code.len() as int;
            let (tested, exit_site) = begun.for_condition();
            match exit_site {
                Err(_) => (tested, Err(())),
                Ok(exit_site) => if !tested.within(self) {
                    (tested, Err(()))
                } else {
                    let (stepped, start) = tested.for_increment(loop_start);
                    match start {
                        Err(_) => (stepped, Err(())),
                        Ok(start) => if !stepped.within(self) {
                            (stepped, Err(()))
                        } else {
                            stepped.for_body(start, exit_site)
                        },
                    }
                },
            }
        }
    }

    /// The opening parenthesis of a `for` and its initializer: nothing, a
    /// variable, or an expression.
    #[verifier::opaque]
    pub open spec fn for_initializer(self) -> (Model, Result<(), ()>)
    {
        let (opened, went) = self.consume(
            TokenKind::LParen,
            "Expect '(' after 'for'.".spec_bytes(),
        );
        if went.is_err() || !opened.within(self) {
            (opened, Err(()))
        } else if opened.parser.current.kind == TokenKind::Semicolon {
            (opened.advance(), Ok(()))
        } else if opened.parser.current.kind == TokenKind::Var {
            let taken = opened.advance();
            if !taken.within(self) {
                (taken, Err(()))
            } else {
                taken.var_declaration()
            }
        } else {
            opened.expression_statement()
        }
    }

    /// The condition of a `for`, if it has one, with the jump out of the
    /// loop; and where that jump is to be patched.
    #[verifier::opaque]
    pub open spec fn for_condition(self) -> (Model, Result<Option<int>, ()>)
    {
        if self.parser.current.kind == TokenKind::Semicolon {
            (self.advance(), Ok(None))
        } else {
            let (tested, went) = self.expression();
            if went.is_err() {
                (tested, Err(()))
            } else {
                let (ended, went) = tested.consume(
                    TokenKind::Semicolon,
                    "Expect ';' after loop condition.".spec_bytes(),
                );
                if went.is_err() {
                    (ended, Err(()))
                } else {
                    let (jumped, site) = ended.emit_jump(Op::JumpIfFalse);
                    (jumped.emit(seq![Op::Pop.byte()]), Ok(Some(site)))
                }
            }
        }
    }

    /// The increment of a `for`, if it has one: the body jumps over it
    /// at first, and it loops back to `loop_start`. Gives where the body is
    /// to loop back to.
    #[verifier::opaque]
    pub open spec fn for_increment(self, loop_start: int) -> (Model, Result<int, ()>)
    {
        if self.parser.current.kind == TokenKind::RParen {
            (self.advance(), Ok(loop_start))
        } else {
            let (jumped, body_site) = self.emit_jump(Op::Jump);
            let increment_start = jumped.state().code.len() as int;
            if !jumped.within(self) {
                (jumped, Err(()))
            } else {
                let (stepped, went) = jumped.expression();
                if went.is_err() {
                    (stepped, Err(()))
                } else {
                    let (closed, went) = stepped.emit(seq![Op::Pop.byte()]).consume(
                        TokenKind::RParen,
                        "Expect ')' after for clauses.".spec_bytes(),
                    );
                    if went.is_err() {
                        (closed, Err(()))
                    } else {
                        let (looped, went) = closed.emit_loop(loop_start);
                        if went.is_err() {
                            (looped, Err(()))
                        } else {
                            let (patched, went) = looped.patch_jump(body_site);
                            if went.is_err() {
                                (patched, Err(()))
                            } else {
                                (patched, Ok(increment_start))
                            }
                        }
                    }
                }
            }
        }
    }

    /// The body of a `for`, the jump back to `loop_start`, and the
    /// landing of the jump out of the loop.
    pub open spec fn for_body(self, loop_start: int, exit_site: Option<int>) -> (
        Model,
        Result<(), ()>,
    )
        decreases self.parser.measure(), 36nat,
    {
        let (body, went) = self.statement();
        if went.is_err() {
            (body, Err(()))
        } else {
            body.loop_end(loop_start, exit_site)
        }
    }

    /// The name of a variable, which is declared; and the constant that
    /// holds the name of a global, or zero for a local. The message
    /// `missing` is for a missing name.
    #[verifier::opaque]
    pub open spec fn parse_variable(self, missing: Seq<u8>) -> (Model, Result<u8, ()>) {
        let (named, went) = self.consume(TokenKind::Identifier, missing);
        if went.is_err() {
            (named, Err(()))
        } else {
            let (declared, went) = named.declare_variable();
            if went.is_err() {
                (declared, Err(()))
            } else if declared.state().scope_depth > 0 {
                (declared, Ok(0u8))
            } else {
                declared.make_constant(ConstView::Text(declared.parser.previous.text))
            }
        }
    }

    /// `var`, which is taken: the name, the initializer or nil, and the
    /// definition.
    #[verifier::opaque]
    pub open spec fn var_declaration(self) -> (Model, Result<(), ()>)
    {
        let (named, global) = self.parse_variable("Expect variable name.".spec_bytes());
        match global {
            Err(_) => (named, Err(())),
            Ok(global) => {
                let (valued, went) = if named.parser.current.kind == TokenKind::Equal {
                    let taken = named.advance();
                    if !taken.within(self) {
                        (taken, Err(()))
                    } else {
                        taken.expression()
                    }
                } else {
                    (named.emit(seq![Op::Nil.byte()]), Ok(()))
                };
                if went.is_err() {
                    (valued, Err(()))
                } else {
                    let (ended, went) = valued.consume(
                        TokenKind::Semicolon,
                        "Expect ';' after variable declaration.".spec_bytes(),
                    );
                    if went.is_err() {
                        (ended, Err(()))
                    } else {
                        (ended.define_variable(global), Ok(()))
                    }
                }
            },
        }
    }

    /// `fun`, which is taken: the name, which the function may refer to
    /// itself by, the function, and the definition.
    pub open spec fn fun_declaration(self) -> (Model, Result<(), ()>)
        decreases self.parser.measure(), 40nat,
    {
        let (named, global) = self.parse_variable("Expect function name.".spec_bytes());
        match global {
            Err(_) => (named, Err(())),
            Ok(global) => {
                let marked = named.mark_initialized();
                if !marked.within(self) {
                    (marked, Err(()))
                } else {
                    let (compiled, went) = marked.function(FunctionKind::Function);
                    if went.is_err() {
                        (compiled, Err(()))
                    } else {
                        (compiled.define_variable(global), Ok(()))
                    }
                }
            },
        }
    }

    /// A function of kind `kind`, whose name is taken: its parameters and
    /// its body, compiled into a function of its own, and the `Closure`
    /// that makes a closure of it, with one pair of bytes for each
    /// variable it captures.
    pub open spec fn function(self, kind: FunctionKind) -> (Model, Result<(), ()>)
        decreases self.parser.measure(), 38nat,
    {
        let begun = self.init(kind);
        if !begun.within(self) {
            (begun, Err(()))
        } else {
            let (body, went) = begun.function_body();
            let (ended, upvalues) = body.emit_return().end_function();
            if went.is_err() {
                (ended, Err(()))
            } else {
                let (made, constant) = ended.make_constant(
                    ConstView::Function(body.emit_return().state().finished()),
                );
                match constant {
                    Err(_) => (made, Err(())),
                    Ok(constant) => (
                        made.emit(seq![Op::Closure.byte(), constant] + pair_bytes(upvalues)),
                        Ok(()),
                    ),
                }
            }
        }
    }

    /// The parameters and the body of the innermost function.
    pub open spec fn function_body(self) -> (Model, Result<(), ()>)
        decreases self.parser.measure(), 37nat,
    {
        let (listed, went) = self.signature();
        if went.is_err() || !listed.within(self) {
            (listed, Err(()))
        } else {
            listed.block()
        }
    }

    /// The parameters of the innermost function, in parentheses, in a
    /// scope that its body shares, and the opening brace of the body.
    #[verifier::opaque]
    pub open spec fn signature(self) -> (Model, Result<(), ()>) {
        let (scoped, went) = self.begin_scope();
        if went.is_err() {
            (scoped, Err(()))
        } else {
            let (opened, went) = scoped.consume(
                TokenKind::LParen,
                "Expect '(' after function name.".spec_bytes(),
            );
            if went.is_err() {
                (opened, Err(()))
            } else {
                let (listed, went) = if opened.parser.current.kind == TokenKind::RParen {
                    (opened, Ok(()))
                } else {
                    opened.parameters()
                };
                if went.is_err() {
                    (listed, Err(()))
                } else {
                    let (closed, went) = listed.consume(
                        TokenKind::RParen,
                        "Expect ')' after parameters.".spec_bytes(),
                    );
                    if went.is_err() {
                        (closed, Err(()))
                    } else {
                        closed.consume(
                            TokenKind::LBrace,
                            "Expect '{' before function body.".spec_bytes(),
                        )
                    }
                }
            }
        }
    }

    /// The compiler with one more parameter counted.
    #[verifier::opaque]
    pub open spec fn add_parameter(self) -> Model {
        self.with_state(StateView { arity: (self.state().arity + 1) as usize, ..self.state() })
    }

    /// The parameters of the innermost function, up to the closing
    /// parenthesis: each is a local that is defined at once.
    pub open spec fn parameters(self) -> (Model, Result<(), ()>)
        decreases self.parser.measure(),
    {
        if self.state().arity >= 255 {
            (self.fail_at_current("Can't have more than 255 parameters.".spec_bytes()), Err(()))
        } else {
            let (named, constant) = self.add_parameter().parse_variable(
                "Expect parameter name.".spec_bytes(),
            );
            match constant {
                Err(_) => (named, Err(())),
                Ok(constant) => {
                    let (next, more) = named.define_variable(constant).check_eat(TokenKind::Comma);
                    if !more {
                        (next, Ok(()))
                    } else if !next.past(self) {
                        (next, Err(()))
                    } else {
                        next.parameters()
                    }
                },
            }
        }
    }

    /// A method, whose class stands on the stack when the code runs: its
    /// name, the function, and the `Method` that installs it.
    pub open spec fn method(self) -> (Model, Result<(), ()>)
        decreases self.parser.measure(), 40nat,
    {
        let (named, went) = self.consume(
            TokenKind::Identifier,
            "Expect method name.".spec_bytes(),
        );
        if went.is_err() {
            (named, Err(()))
        } else {
            let (made, constant) = named.make_constant(
                ConstView::Text(named.parser.previous.text),
            );
            match constant {
                Err(_) => (made, Err(())),
                Ok(constant) => if !made.within(self) {
                    (made, Err(()))
                } else {
                    let (compiled, went) = made.function(
                        if named.parser.previous.text == "init".spec_bytes() {
                            FunctionKind::Initializer
                        } else {
                            FunctionKind::Method
                        },
                    );
                    if went.is_err() {
                        (compiled, Err(()))
                    } else {
                        (compiled.emit(seq![Op::Method.byte(), constant]), Ok(()))
                    }
                },
            }
        }
    }

    /// `class`, which is taken: the name, the superclass if one is
    /// named, and the methods.
    pub open spec fn class_declaration(self) -> (Model, Result<(), ()>)
        decreases self.parser.measure(), 46nat,
    {
        let (named, name) = self.class_header();
        match name {
            Err(_) => (named, Err(())),
            Ok(name) => {
                let (derived, heritage, has_superclass) = named.class_heritage(name);
                if !derived.within(self) {
                    (derived, Err(()))
                } else {
                    let (compiled, went) = derived.class_body(name, heritage, has_superclass);
                    if has_superclass {
                        (compiled.end_scope(), went)
                    } else {
                        (compiled, went)
                    }
                }
            },
        }
    }

    /// The name of a class: it is declared, and the `Class` that makes
    /// the class is emitted with the definition of its name. Gives the
    /// name.
    #[verifier::opaque]
    pub open spec fn class_header(self) -> (Model, Result<Seq<u8>, ()>) {
        let (named, went) = self.consume(TokenKind::Identifier, "Expect class name.".spec_bytes());
        if went.is_err() {
            (named, Err(()))
        } else {
            let name = named.parser.previous.text;
            let (made, constant) = named.make_constant(ConstView::Text(name));
            match constant {
                Err(_) => (made, Err(())),
                Ok(constant) => {
                    let (declared, went) = made.declare_variable();
                    if went.is_err() {
                        (declared, Err(()))
                    } else {
                        (
                            declared.emit(seq![Op::Class.byte(), constant]).define_variable(
                                constant,
                            ),
                            Ok(name),
                        )
                    }
                },
            }
        }
    }

    /// The superclass of the class `class_name`, if one is named: it is
    /// kept in a local named `super`, in a scope of its own, and `Inherit`
    /// hands its methods to the class. Says whether that scope was
    /// entered.
    #[verifier::opaque]
    pub open spec fn class_heritage(self, class_name: Seq<u8>) -> (Model, Result<(), ()>, bool) {
        if self.parser.current.kind != TokenKind::Less {
            (self, Ok(()), false)
        } else {
            let (named, went) = self.advance().consume(
                TokenKind::Identifier,
                "Expect superclass name.".spec_bytes(),
            );
            if went.is_err() {
                (named, Err(()), false)
            } else {
                let superclass = named.parser.previous.text;
                let (read, went) = named.named_variable(superclass, false);
                if went.is_err() {
                    (read, Err(()), false)
                } else if superclass == class_name {
                    (
                        read.fail("A class can't inherit from itself.".spec_bytes()),
                        Err(()),
                        false,
                    )
                } else {
                    let (scoped, went) = read.begin_scope();
                    if went.is_err() {
                        (scoped, Err(()), false)
                    } else {
                        let (kept, went) = scoped.add_local("super".spec_bytes());
                        if went.is_err() {
                            (kept, Err(()), true)
                        } else {
                            let (class, went) = kept.define_variable(0).named_variable(
                                class_name,
                                false,
                            );
                            if went.is_err() {
                                (class, Err(()), true)
                            } else {
                                (class.emit(seq![Op::Inherit.byte()]), Ok(()), true)
                            }
                        }
                    }
                }
            }
        }
    }

    /// The compiler inside one more class, which has a superclass if
    /// `has_superclass`.
    #[verifier::opaque]
    pub open spec fn enter_class(self, has_superclass: bool) -> Model {
        Model { classes: self.classes.push(has_superclass), ..self }
    }

    /// The compiler outside the innermost class.
    #[verifier::opaque]
    pub open spec fn leave_class(self) -> Model {
        Model { classes: self.classes.drop_last(), ..self }
    }

    /// The methods of the class `class_name` whose heritage is compiled,
    /// in the context of that class.
    pub open spec fn class_body(
        self,
        class_name: Seq<u8>,
        heritage: Result<(), ()>,
        has_superclass: bool,
    ) -> (Model, Result<(), ()>)
        decreases self.parser.measure(), 44nat,
    {
        let entered = self.enter_class(has_superclass);
        if heritage.is_err() {
            (entered.leave_class(), Err(()))
        } else if !entered.within(self) {
            (entered, Err(()))
        } else {
            let (compiled, went) = entered.class_methods(class_name);
            (compiled.leave_class(), went)
        }
    }

    /// The body of the class `class_name`: the class is put on the stack,
    /// each method is compiled and installed, and the class is dropped
    /// again.
    pub open spec fn class_methods(self, class_name: Seq<u8>) -> (Model, Result<(), ()>)
        decreases self.parser.measure(), 42nat,
    {
        let (read, went) = self.named_variable(class_name, false);
        if went.is_err() {
            (read, Err(()))
        } else {
            let (opened, went) = read.consume(
                TokenKind::LBrace,
                "Expect '{' before class body.".spec_bytes(),
            );
            if went.is_err() || !opened.within(self) {
                (opened, Err(()))
            } else {
                let (listed, went) = opened.methods();
                if went.is_err() {
                    (listed, Err(()))
                } else {
                    let (closed, went) = listed.consume(
                        TokenKind::RBrace,
                        "Expect '}' after class body.".spec_bytes(),
                    );
                    if went.is_err() {
                        (closed, Err(()))
                    } else {
                        (closed.emit(seq![Op::Pop.byte()]), Ok(()))
                    }
                }
            }
        }
    }

    /// Every method up to a closing brace or the end of the source.
    pub open spec fn methods(self) -> (Model, Result<(), ()>)
        decreases self.parser.measure(), 41nat,
    {
        if self.parser.current.kind == TokenKind::RBrace || self.parser.current.kind
            == TokenKind::Eof {
            (self, Ok(()))
        } else {
            let (next, went) = self.method();
            if went.is_err() || !next.past(self) {
                (next, Err(()))
            } else {
                next.methods()
            }
        }
    }
}

} // verus!
