use vstd::prelude::*;
use vstd::string::StringSliceAdditionalSpecFns;
use crate::chunk::Op;
use crate::compiler::compile_expression::binding;
use crate::compiler::compile_expression::Precedence;
use crate::compiler::compile_expression::unquoted;
use crate::compiler::model::ConstView;
use crate::compiler::model::Model;
use crate::compiler::token_kind::TokenKind;

verus! {

/// What the compiler does with an expression, as mathematics. Each
/// function gives the compiler after the construct is compiled, and
/// whether it was compiled without an error. Where a function goes on
/// after a part is compiled, it does so only if the compiler has not gone
/// back in the source, which makes the functions total; the compiler
/// never goes back, so the other case does not arise.
impl Model {
    /// The compiler with the instructions emitted for the operator
    /// `operator` between two operands.
    #[verifier::opaque]
    pub open spec fn binary_ops(self, operator: TokenKind) -> Model {
        match operator {
            TokenKind::BangEqual => self.emit(seq![Op::Equal.byte()]).emit(seq![Op::Not.byte()]),
            TokenKind::EqualEqual => self.emit(seq![Op::Equal.byte()]),
            TokenKind::Greater => self.emit(seq![Op::Greater.byte()]),
            TokenKind::GreaterEqual => self.emit(seq![Op::Less.byte()]).emit(
                seq![Op::Not.byte()],
            ),
            TokenKind::Less => self.emit(seq![Op::Less.byte()]),
            TokenKind::LessEqual => self.emit(seq![Op::Greater.byte()]).emit(
                seq![Op::Not.byte()],
            ),
            TokenKind::Plus => self.emit(seq![Op::Add.byte()]),
            TokenKind::Minus => self.emit(seq![Op::Subtract.byte()]),
            TokenKind::Star => self.emit(seq![Op::Multiply.byte()]),
            _ => self.emit(seq![Op::Divide.byte()]),
        }
    }

    /// An expression whose operators all bind at least as tightly as
    /// `precedence`: what begins it, then every operator that binds
    /// tightly enough with its right operand.
    pub open spec fn parse_precedence(self, precedence: Precedence) -> (Model, Result<(), ()>)
        decreases self.parser.measure(), 1nat,
    {
        let taken = self.advance();
        let kind = taken.parser.previous.kind;
        let can_assign = precedence.level() <= 1;
        if kind == TokenKind::Eof {
            (taken.fail("Expect expression.".spec_bytes()), Err(()))
        } else if !taken.past(self) {
            (taken, Err(()))
        } else {
            let (first, begun) = taken.prefix_rule(kind, can_assign);
            if begun.is_err() || !first.within(taken) {
                (first, Err(()))
            } else {
                first.infix_loop(precedence, can_assign)
            }
        }
    }

    /// Every operator that comes next and binds at least as tightly as
    /// `precedence`, each with what it continues. An `=` that is left over
    /// where an assignment could stand has no target.
    pub open spec fn infix_loop(self, precedence: Precedence, can_assign: bool) -> (
        Model,
        Result<(), ()>,
    )
        decreases self.parser.measure(), 0nat,
    {
        if precedence.level() <= binding(self.parser.current.kind).level() {
            let taken = self.advance();
            if !taken.past(self) {
                (taken, Err(()))
            } else {
                let (next, went) = taken.infix_rule(taken.parser.previous.kind, can_assign);
                if went.is_err() || !next.within(taken) {
                    (next, Err(()))
                } else {
                    next.infix_loop(precedence, can_assign)
                }
            }
        } else if can_assign && self.parser.current.kind == TokenKind::Equal {
            (self.advance().fail("Invalid assignment target.".spec_bytes()), Err(()))
        } else {
            (self, Ok(()))
        }
    }

    /// An expression.
    pub open spec fn expression(self) -> (Model, Result<(), ()>)
        decreases self.parser.measure(), 3nat,
    {
        self.parse_precedence(Precedence::Assignment)
    }

    /// What a token of kind `kind`, just taken, begins.
    pub open spec fn prefix_rule(self, kind: TokenKind, can_assign: bool) -> (Model, Result<(), ()>)
        decreases self.parser.measure(), 9nat,
    {
        match kind {
            TokenKind::LParen => self.grouping(),
            TokenKind::Minus | TokenKind::Bang => self.unary(kind),
            TokenKind::Identifier => self.variable(can_assign),
            TokenKind::String => self.emit_constant(
                ConstView::Text(unquoted(self.parser.previous.text)),
            ),
            TokenKind::Number => self.emit_constant(ConstView::Number(self.parser.previous.text)),
            TokenKind::False | TokenKind::Nil | TokenKind::True => self.literal(kind),
            TokenKind::Super => self.super_(),
            TokenKind::This => self.this_(),
            _ => (self.fail("Expect expression.".spec_bytes()), Err(())),
        }
    }

    /// What an operator of kind `kind`, just taken, continues.
    pub open spec fn infix_rule(self, kind: TokenKind, can_assign: bool) -> (Model, Result<(), ()>)
        decreases self.parser.measure(), 9nat,
    {
        match kind {
            TokenKind::LParen => self.call(),
            TokenKind::Dot => self.dot(can_assign),
            TokenKind::And => self.and_(),
            TokenKind::Or => self.or_(),
            TokenKind::Minus | TokenKind::Plus | TokenKind::Slash | TokenKind::Star
            | TokenKind::BangEqual | TokenKind::EqualEqual | TokenKind::Greater
            | TokenKind::GreaterEqual | TokenKind::Less | TokenKind::LessEqual => self.binary(
                kind,
            ),
            _ => (self, Ok(())),
        }
    }

    /// An expression in parentheses, of which the first is taken.
    pub open spec fn grouping(self) -> (Model, Result<(), ()>)
        decreases self.parser.measure(), 7nat,
    {
        let (inner, went) = self.expression();
        if went.is_err() {
            (inner, Err(()))
        } else {
            inner.consume(TokenKind::RParen, "Expect ')' after expression.".spec_bytes())
        }
    }

    /// The operand of the operator `operator`, which is taken, and the
    /// instruction for the operator behind it.
    pub open spec fn unary(self, operator: TokenKind) -> (Model, Result<(), ()>)
        decreases self.parser.measure(), 7nat,
    {
        let (operand, went) = self.parse_precedence(Precedence::Unary);
        if went.is_err() {
            (operand, Err(()))
        } else {
            (
                operand.emit(
                    seq![
                        if operator == TokenKind::Bang {
                            Op::Not.byte()
                        } else {
                            Op::Negate.byte()
                        },
                    ],
                ),
                Ok(()),
            )
        }
    }

    /// The right operand of the operator `operator`, which is taken, with
    /// every operator that binds tighter, and the instructions for the
    /// operator behind it.
    pub open spec fn binary(self, operator: TokenKind) -> (Model, Result<(), ()>)
        decreases self.parser.measure(), 7nat,
    {
        let (operand, went) = self.parse_precedence(binding(operator).tighter());
        if went.is_err() {
            (operand, Err(()))
        } else {
            (operand.binary_ops(operator), Ok(()))
        }
    }

    /// `false`, `nil` or `true`.
    #[verifier::opaque]
    pub open spec fn literal(self, kind: TokenKind) -> (Model, Result<(), ()>) {
        (
            self.emit(
                seq![
                    match kind {
                        TokenKind::False => Op::False.byte(),
                        TokenKind::True => Op::True.byte(),
                        _ => Op::Nil.byte(),
                    },
                ],
            ),
            Ok(()),
        )
    }

    /// The arguments of a call, from the `count`th on, up to the closing
    /// parenthesis; and how many there are in all.
    pub open spec fn arguments(self, count: u8) -> (Model, Result<u8, ()>)
        decreases self.parser.measure(), 4nat,
    {
        if self.parser.current.kind == TokenKind::Eof {
            (self.fail_at_current("Expect expression.".spec_bytes()), Err(()))
        } else {
            let (given, went) = self.expression();
            if went.is_err() {
                (given, Err(()))
            } else if count == 255 {
                (given.fail("Can't have more than 255 arguments.".spec_bytes()), Err(()))
            } else {
                let (next, more) = given.check_eat(TokenKind::Comma);
                if !more {
                    (next, Ok((count + 1) as u8))
                } else if !next.past(self) {
                    (next, Err(()))
                } else {
                    next.arguments((count + 1) as u8)
                }
            }
        }
    }

    /// The arguments of a call and the closing parenthesis; and how many
    /// arguments there are.
    pub open spec fn argument_list(self) -> (Model, Result<u8, ()>)
        decreases self.parser.measure(), 5nat,
    {
        let (given, count) = if self.parser.current.kind == TokenKind::RParen {
            (self, Ok(0u8))
        } else {
            self.arguments(0)
        };
        match count {
            Ok(count) => {
                let (closed, went) = given.consume(
                    TokenKind::RParen,
                    "Expect ')' after arguments.".spec_bytes(),
                );
                match went {
                    Ok(_) => (closed, Ok(count)),
                    Err(_) => (closed, Err(())),
                }
            },
            Err(_) => (given, Err(())),
        }
    }

    /// A call, of which the opening parenthesis is taken.
    pub open spec fn call(self) -> (Model, Result<(), ()>)
        decreases self.parser.measure(), 7nat,
    {
        let (given, count) = self.argument_list();
        match count {
            Ok(count) => (given.emit(seq![Op::Call.byte(), count]), Ok(())),
            Err(_) => (given, Err(())),
        }
    }

    /// What follows a dot, which is taken: the name of a property, and
    /// the value to give it, or the arguments to call it with, or nothing,
    /// to read it.
    pub open spec fn dot(self, can_assign: bool) -> (Model, Result<(), ()>)
        decreases self.parser.measure(), 7nat,
    {
        let (named, went) = self.consume(
            TokenKind::Identifier,
            "Expect property name after '.'.".spec_bytes(),
        );
        if went.is_err() {
            (named, Err(()))
        } else {
            let (made, name) = named.make_constant(ConstView::Text(named.parser.previous.text));
            match name {
                Err(_) => (made, Err(())),
                Ok(name) => if !made.within(self) {
                    (made, Err(()))
                } else {
                    made.property(name, can_assign)
                },
            }
        }
    }

    /// What is done with the property whose name is the constant `name`:
    /// it is given the value behind an `=`, if `can_assign`; or called
    /// with the arguments that follow; or read.
    pub open spec fn property(self, name: u8, can_assign: bool) -> (Model, Result<(), ()>)
        decreases self.parser.measure(), 6nat,
    {
        if can_assign && self.parser.current.kind == TokenKind::Equal {
            let taken = self.advance();
            if !taken.within(self) {
                (taken, Err(()))
            } else {
                let (value, went) = taken.expression();
                if went.is_err() {
                    (value, Err(()))
                } else {
                    (value.emit(seq![Op::SetProperty.byte(), name]), Ok(()))
                }
            }
        } else if self.parser.current.kind == TokenKind::LParen {
            let taken = self.advance();
            if !taken.within(self) {
                (taken, Err(()))
            } else {
                let (given, count) = taken.argument_list();
                match count {
                    Ok(count) => (given.emit(seq![Op::Invoke.byte(), name, count]), Ok(())),
                    Err(_) => (given, Err(())),
                }
            }
        } else {
            (self.emit(seq![Op::GetProperty.byte(), name]), Ok(()))
        }
    }

    /// The right operand of `and`, which is taken: it is jumped over if
    /// the left is false.
    pub open spec fn and_(self) -> (Model, Result<(), ()>)
        decreases self.parser.measure(), 7nat,
    {
        let (jumped, end_site) = self.emit_jump(Op::JumpIfFalse);
        let popped = jumped.emit(seq![Op::Pop.byte()]);
        if !popped.within(self) {
            (popped, Err(()))
        } else {
            let (operand, went) = popped.parse_precedence(Precedence::And);
            if went.is_err() {
                (operand, Err(()))
            } else {
                operand.patch_jump(end_site)
            }
        }
    }

    /// The right operand of `or`, which is taken: it is jumped over
    /// unless the left is false.
    pub open spec fn or_(self) -> (Model, Result<(), ()>)
        decreases self.parser.measure(), 7nat,
    {
        let (first, else_site) = self.emit_jump(Op::JumpIfFalse);
        let (second, end_site) = first.emit_jump(Op::Jump);
        let (patched, went) = second.patch_jump(else_site);
        if went.is_err() {
            (patched, Err(()))
        } else {
            let popped = patched.emit(seq![Op::Pop.byte()]);
            if !popped.within(self) {
                (popped, Err(()))
            } else {
                let (operand, went) = popped.parse_precedence(Precedence::Or);
                if went.is_err() {
                    (operand, Err(()))
                } else {
                    operand.patch_jump(end_site)
                }
            }
        }
    }

    /// A read of the variable `name`, or a write if `can_assign` and an
    /// `=` follows: of the local of that name, else of the variable of
    /// that name that a function around has, else of the global.
    pub open spec fn named_variable(self, name: Seq<u8>, can_assign: bool) -> (Model, Result<(), ()>)
        decreases self.parser.measure(), 5nat,
    {
        let (found, access) = self.resolve(name);
        match access {
            Err(_) => (found, Err(())),
            Ok((get, set, operand)) => if can_assign && found.parser.current.kind
                == TokenKind::Equal {
                let taken = found.advance();
                if !taken.within(self) {
                    (taken, Err(()))
                } else {
                    let (value, went) = taken.expression();
                    if went.is_err() {
                        (value, Err(()))
                    } else {
                        (value.emit(seq![set.byte(), operand]), Ok(()))
                    }
                }
            } else {
                (found.emit(seq![get.byte(), operand]), Ok(()))
            },
        }
    }

    /// How the variable `name` is read and written, and by which operand:
    /// as a local, else as a variable of a function around, else as a
    /// global.
    #[verifier::opaque]
    pub open spec fn resolve(self, name: Seq<u8>) -> (Model, Result<(Op, Op, u8), ()>) {
        let last = self.states.len() - 1;
        let (sought, local) = self.resolve_local(last, name);
        match local {
            Err(_) => (sought, Err(())),
            Ok(Some(slot)) => (sought, Ok((Op::GetLocal, Op::SetLocal, slot))),
            Ok(None) => {
                let (around, upvalue) = sought.resolve_upvalue(last, name);
                match upvalue {
                    Err(_) => (around, Err(())),
                    Ok(Some(index)) => (around, Ok((Op::GetUpvalue, Op::SetUpvalue, index))),
                    Ok(None) => {
                        let (made, constant) = around.make_constant(ConstView::Text(name));
                        match constant {
                            Err(_) => (made, Err(())),
                            Ok(constant) => (made, Ok((Op::GetGlobal, Op::SetGlobal, constant))),
                        }
                    },
                }
            },
        }
    }

    /// The variable named by the token just taken.
    pub open spec fn variable(self, can_assign: bool) -> (Model, Result<(), ()>)
        decreases self.parser.measure(), 7nat,
    {
        self.named_variable(self.parser.previous.text, can_assign)
    }

    /// `this`, which is taken.
    pub open spec fn this_(self) -> (Model, Result<(), ()>)
        decreases self.parser.measure(), 7nat,
    {
        if self.classes.len() == 0 {
            (self.fail("Can't use 'this' outside of a class.".spec_bytes()), Err(()))
        } else {
            self.named_variable("this".spec_bytes(), false)
        }
    }

    /// `super`, which is taken, with the dot and the name of a method
    /// behind it, and the arguments if the method is called.
    pub open spec fn super_(self) -> (Model, Result<(), ()>)
        decreases self.parser.measure(), 7nat,
    {
        if self.classes.len() == 0 {
            (self.fail("Can't use 'super' outside of a class.".spec_bytes()), Err(()))
        } else if !self.classes.last() {
            (self.fail("Can't use 'super' in a class with no superclass.".spec_bytes()), Err(()))
        } else {
            let (dotted, went) = self.consume(
                TokenKind::Dot,
                "Expect '.' after 'super'.".spec_bytes(),
            );
            if went.is_err() {
                (dotted, Err(()))
            } else {
                let (named, went) = dotted.consume(
                    TokenKind::Identifier,
                    "Expect superclass method name.".spec_bytes(),
                );
                if went.is_err() {
                    (named, Err(()))
                } else {
                    let (made, name) = named.make_constant(
                        ConstView::Text(named.parser.previous.text),
                    );
                    match name {
                        Err(_) => (made, Err(())),
                        Ok(name) => if !made.within(self) {
                            (made, Err(()))
                        } else {
                            made.super_access(name)
                        },
                    }
                }
            }
        }
    }

    /// What `super` compiles to once the method's name is the constant
    /// `name`: the instance, the arguments if there are any, the
    /// superclass, and the call or the read of the method.
    pub open spec fn super_access(self, name: u8) -> (Model, Result<(), ()>)
        decreases self.parser.measure(), 6nat,
    {
        let (instance, went) = self.named_variable("this".spec_bytes(), false);
        if went.is_err() || !instance.within(self) {
            (instance, Err(()))
        } else if instance.parser.current.kind == TokenKind::LParen {
            let taken = instance.advance();
            if !taken.within(self) {
                (taken, Err(()))
            } else {
                let (given, count) = taken.argument_list();
                match count {
                    Err(_) => (given, Err(())),
                    Ok(count) => if !given.within(self) {
                        (given, Err(()))
                    } else {
                        let (class, went) = given.named_variable("super".spec_bytes(), false);
                        if went.is_err() {
                            (class, Err(()))
                        } else {
                            (class.emit(seq![Op::SuperInvoke.byte(), name, count]), Ok(()))
                        }
                    },
                }
            }
        } else {
            let (class, went) = instance.named_variable("super".spec_bytes(), false);
            if went.is_err() {
                (class, Err(()))
            } else {
                (class.emit(seq![Op::GetSuper.byte(), name]), Ok(()))
            }
        }
    }
}

} // verus!
