use vstd::prelude::*;
use crate::chunk::Op;
use crate::compiler::driver::Compiler;
use crate::compiler::model::ConstView;
use crate::compiler::model::Model;
use crate::compiler::token_kind::TokenKind;
use crate::text::bytes_of;
use crate::text::copy_range;
use crate::value::Value;

verus! {

/// How tightly an operator binds, from loosest to tightest.
#[derive(Clone, Copy, Debug, PartialEq, Eq, Structural)]
pub enum Precedence {
    Nothing,
    Assignment,
    Or,
    And,
    Equality,
    Comparison,
    Term,
    Factor,
    Unary,
    Call,
    Primary,
}

impl Precedence {
    /// The place of the precedence in the order.
    pub open spec fn level(self) -> nat {
        match self {
            Precedence::Nothing => 0,
            Precedence::Assignment => 1,
            Precedence::Or => 2,
            Precedence::And => 3,
            Precedence::Equality => 4,
            Precedence::Comparison => 5,
            Precedence::Term => 6,
            Precedence::Factor => 7,
            Precedence::Unary => 8,
            Precedence::Call => 9,
            Precedence::Primary => 10,
        }
    }

    pub fn rank(self) -> (rank: u8)
        ensures
            rank == self.level(),
    {
        match self {
            Precedence::Nothing => 0,
            Precedence::Assignment => 1,
            Precedence::Or => 2,
            Precedence::And => 3,
            Precedence::Equality => 4,
            Precedence::Comparison => 5,
            Precedence::Term => 6,
            Precedence::Factor => 7,
            Precedence::Unary => 8,
            Precedence::Call => 9,
            Precedence::Primary => 10,
        }
    }

    /// The next tighter precedence; the tightest stays.
    pub open spec fn tighter(self) -> Precedence {
        match self {
            Precedence::Nothing => Precedence::Assignment,
            Precedence::Assignment => Precedence::Or,
            Precedence::Or => Precedence::And,
            Precedence::And => Precedence::Equality,
            Precedence::Equality => Precedence::Comparison,
            Precedence::Comparison => Precedence::Term,
            Precedence::Term => Precedence::Factor,
            Precedence::Factor => Precedence::Unary,
            Precedence::Unary => Precedence::Call,
            Precedence::Call => Precedence::Primary,
            Precedence::Primary => Precedence::Primary,
        }
    }

    /// The next tighter precedence; the tightest stays.
    pub fn next(self) -> (next: Precedence)
        ensures
            next == self.tighter(),
            next.level() == (if self.level() < 10 {
                self.level() + 1
            } else {
                10
            }),
    {
        match self {
            Precedence::Nothing => Precedence::Assignment,
            Precedence::Assignment => Precedence::Or,
            Precedence::Or => Precedence::And,
            Precedence::And => Precedence::Equality,
            Precedence::Equality => Precedence::Comparison,
            Precedence::Comparison => Precedence::Term,
            Precedence::Term => Precedence::Factor,
            Precedence::Factor => Precedence::Unary,
            Precedence::Unary => Precedence::Call,
            Precedence::Call => Precedence::Primary,
            Precedence::Primary => Precedence::Primary,
        }
    }
}

/// How tightly a token binds as an operator between two operands; a token
/// that is no such operator does not bind at all.
pub open spec fn binding(kind: TokenKind) -> Precedence {
    match kind {
        TokenKind::LParen | TokenKind::Dot => Precedence::Call,
        TokenKind::Minus | TokenKind::Plus => Precedence::Term,
        TokenKind::Slash | TokenKind::Star => Precedence::Factor,
        TokenKind::BangEqual | TokenKind::EqualEqual => Precedence::Equality,
        TokenKind::Greater | TokenKind::GreaterEqual | TokenKind::Less | TokenKind::LessEqual => Precedence::Comparison,
        TokenKind::And => Precedence::And,
        TokenKind::Or => Precedence::Or,
        _ => Precedence::Nothing,
    }
}

pub fn infix_precedence(kind: TokenKind) -> (precedence: Precedence)
    ensures
        precedence == binding(kind),
{
    match kind {
        TokenKind::LParen | TokenKind::Dot => Precedence::Call,
        TokenKind::Minus | TokenKind::Plus => Precedence::Term,
        TokenKind::Slash | TokenKind::Star => Precedence::Factor,
        TokenKind::BangEqual | TokenKind::EqualEqual => Precedence::Equality,
        TokenKind::Greater | TokenKind::GreaterEqual | TokenKind::Less | TokenKind::LessEqual => Precedence::Comparison,
        TokenKind::And => Precedence::And,
        TokenKind::Or => Precedence::Or,
        _ => Precedence::Nothing,
    }
}

/// The text of a string literal without the quotes around it.
pub open spec fn unquoted(text: Seq<u8>) -> Seq<u8> {
    if text.len() >= 2 {
        text.subrange(1, text.len() - 1)
    } else {
        Seq::empty()
    }
}

impl<F: Fn(&Vec<u8>) -> u64> Compiler<F> {
    /// Compiles an expression whose operators all bind at least as
    /// tightly as `precedence`.
    #[verifier::spinoff_prover]
    pub(crate) fn parse_precedence(&mut self, precedence: Precedence) -> (r: Result<(), ()>)
        requires
            old(self).wf(),
            precedence.level() >= 1,
        ensures
            r.is_err() ==> final(self).errors@.len() > old(self).errors@.len(),
            final(self).wf(),
            final(self).follows(old(self)),
            (final(self)@, r) == old(self)@.parse_precedence(precedence),
            final(self).progressed(old(self)),
        decreases old(self).parser.measure(), 0nat,
    {
        self.advance();
        let kind = self.parser.previous.kind;
        if kind == TokenKind::Eof {
            return self.error("Expect expression.");
        }
        let can_assign = precedence.rank() <= Precedence::Assignment.rank();
        let ghost taken = *self;
        match self.prefix_rule(kind, can_assign) {
            Ok(()) => {},
            Err(_) => {
                return Err(());
            },
        }
        self.infix_loop(precedence, can_assign)
    }

    /// Compiles every operator that comes next and binds at least as
    /// tightly as `precedence`, each with what it continues; an `=` left
    /// over where an assignment could stand is an error.
    #[verifier::spinoff_prover]
    fn infix_loop(&mut self, precedence: Precedence, can_assign: bool) -> (r: Result<(), ()>)
        requires
            old(self).wf(),
            precedence.level() >= 1,
        ensures
            r.is_err() ==> final(self).errors@.len() > old(self).errors@.len(),
            final(self).wf(),
            final(self).follows(old(self)),
            (final(self)@, r) == old(self)@.infix_loop(precedence, can_assign),
        decreases old(self).parser.measure(), 5nat,
    {
        while precedence.rank() <= infix_precedence(self.parser.current.kind).rank()
            invariant
                self.wf(),
                self.follows(old(self)),
                precedence.level() >= 1,
                self@.infix_loop(precedence, can_assign) == old(self)@.infix_loop(
                    precedence,
                    can_assign,
                ),
            decreases self.parser.measure(),
        {
            self.advance();
            let operator = self.parser.previous.kind;
            match self.infix_rule(operator, can_assign) {
                Ok(()) => {},
                Err(_) => {
                    return Err(());
                },
            }
        }
        if can_assign && self.check_eat(TokenKind::Equal) {
            return self.error("Invalid assignment target.");
        }
        Ok(())
    }

    /// Compiles an expression.
    #[verifier::spinoff_prover]
    pub(crate) fn expression(&mut self) -> (r: Result<(), ()>)
        requires
            old(self).wf(),
        ensures
            r.is_err() ==> final(self).errors@.len() > old(self).errors@.len(),
            final(self).wf(),
            final(self).follows(old(self)),
            (final(self)@, r) == old(self)@.expression(),
            final(self).progressed(old(self)),
        decreases old(self).parser.measure(), 1nat,
    {
        self.parse_precedence(Precedence::Assignment)
    }

    /// Compiles what a token of kind `kind`, just taken, begins.
    #[verifier::spinoff_prover]
    fn prefix_rule(&mut self, kind: TokenKind, can_assign: bool) -> (r: Result<(), ()>)
        requires
            old(self).wf(),
        ensures
            r.is_err() ==> final(self).errors@.len() > old(self).errors@.len(),
            final(self).wf(),
            final(self).follows(old(self)),
            (final(self)@, r) == old(self)@.prefix_rule(kind, can_assign),
        decreases old(self).parser.measure(), 4nat,
    {
        match kind {
            TokenKind::LParen => self.grouping(),
            TokenKind::Minus | TokenKind::Bang => self.unary(kind),
            TokenKind::Identifier => self.variable(can_assign),
            TokenKind::String => self.string(),
            TokenKind::Number => self.number(),
            TokenKind::False | TokenKind::Nil | TokenKind::True => self.literal(kind),
            TokenKind::Super => self.super_(),
            TokenKind::This => self.this_(),
            _ => self.error("Expect expression."),
        }
    }

    /// Compiles what an operator of kind `kind`, just taken, continues.
    #[verifier::spinoff_prover]
    fn infix_rule(&mut self, kind: TokenKind, can_assign: bool) -> (r: Result<(), ()>)
        requires
            old(self).wf(),
        ensures
            r.is_err() ==> final(self).errors@.len() > old(self).errors@.len(),
            final(self).wf(),
            final(self).follows(old(self)),
            (final(self)@, r) == old(self)@.infix_rule(kind, can_assign),
        decreases old(self).parser.measure(), 4nat,
    {
        match kind {
            TokenKind::LParen => self.call(),
            TokenKind::Dot => self.dot(can_assign),
            TokenKind::And => self.and_(),
            TokenKind::Or => self.or_(),
            TokenKind::Minus | TokenKind::Plus | TokenKind::Slash | TokenKind::Star
            | TokenKind::BangEqual | TokenKind::EqualEqual | TokenKind::Greater
            | TokenKind::GreaterEqual | TokenKind::Less | TokenKind::LessEqual => self.binary(
                kind,
            ),
            _ => Ok(()),
        }
    }

    #[verifier::spinoff_prover]
    fn grouping(&mut self) -> (r: Result<(), ()>)
        requires
            old(self).wf(),
        ensures
            r.is_err() ==> final(self).errors@.len() > old(self).errors@.len(),
            final(self).wf(),
            final(self).follows(old(self)),
            (final(self)@, r) == old(self)@.grouping(),
        decreases old(self).parser.measure(), 3nat,
    {
        match self.expression() {
            Ok(()) => self.consume(TokenKind::RParen, "Expect ')' after expression."),
            Err(_) => Err(()),
        }
    }

    #[verifier::spinoff_prover]
    fn unary(&mut self, operator: TokenKind) -> (r: Result<(), ()>)
        requires
            old(self).wf(),
        ensures
            r.is_err() ==> final(self).errors@.len() > old(self).errors@.len(),
            final(self).wf(),
            final(self).follows(old(self)),
            (final(self)@, r) == old(self)@.unary(operator),
        decreases old(self).parser.measure(), 3nat,
    {
        match self.parse_precedence(Precedence::Unary) {
            Ok(()) => {},
            Err(_) => {
                return Err(());
            },
        }
        match operator {
            TokenKind::Bang => self.emit_byte(Op::Not),
            _ => self.emit_byte(Op::Negate),
        }
        Ok(())
    }

    #[verifier::spinoff_prover]
    fn binary(&mut self, operator: TokenKind) -> (r: Result<(), ()>)
        requires
            old(self).wf(),
        ensures
            r.is_err() ==> final(self).errors@.len() > old(self).errors@.len(),
            final(self).wf(),
            final(self).follows(old(self)),
            (final(self)@, r) == old(self)@.binary(operator),
        decreases old(self).parser.measure(), 3nat,
    {
        proof {
            reveal(Model::binary_ops);
        }
        let tighter = infix_precedence(operator).next();
        match self.parse_precedence(tighter) {
            Ok(()) => {},
            Err(_) => {
                return Err(());
            },
        }
        match operator {
            TokenKind::BangEqual => {
                self.emit_byte(Op::Equal);
                self.emit_byte(Op::Not);
            },
            TokenKind::EqualEqual => self.emit_byte(Op::Equal),
            TokenKind::Greater => self.emit_byte(Op::Greater),
            TokenKind::GreaterEqual => {
                self.emit_byte(Op::Less);
                self.emit_byte(Op::Not);
            },
            TokenKind::Less => self.emit_byte(Op::Less),
            TokenKind::LessEqual => {
                self.emit_byte(Op::Greater);
                self.emit_byte(Op::Not);
            },
            TokenKind::Plus => self.emit_byte(Op::Add),
            TokenKind::Minus => self.emit_byte(Op::Subtract),
            TokenKind::Star => self.emit_byte(Op::Multiply),
            _ => self.emit_byte(Op::Divide),
        }
        Ok(())
    }

    #[verifier::spinoff_prover]
    fn literal(&mut self, kind: TokenKind) -> (r: Result<(), ()>)
        requires
            old(self).wf(),
        ensures
            r.is_err() ==> final(self).errors@.len() > old(self).errors@.len(),
            final(self).wf(),
            final(self).follows(old(self)),
            (final(self)@, r) == old(self)@.literal(kind),
        decreases old(self).parser.measure(), 3nat,
    {
        proof {
            reveal(Model::literal);
        }
        match kind {
            TokenKind::False => self.emit_byte(Op::False),
            TokenKind::True => self.emit_byte(Op::True),
            _ => self.emit_byte(Op::Nil),
        }
        Ok(())
    }

    #[verifier::spinoff_prover]
    fn number(&mut self) -> (r: Result<(), ()>)
        requires
            old(self).wf(),
        ensures
            r.is_err() ==> final(self).errors@.len() > old(self).errors@.len(),
            final(self).wf(),
            final(self).follows(old(self)),
            (final(self)@, r) == old(self)@.emit_constant(
                ConstView::Number(old(self)@.parser.previous.text),
            ),
            r.is_ok() ==> final(self).state().chunk.constants@.len() == old(self).state().chunk.constants@.len() + 1 && final(self).state().chunk.constants@.last() is Number
                && call_ensures(
                old(self).parse_number,
                (&old(self).parser.previous.text,),
                final(self).state().chunk.constants@.last()->Number_0,
            ),
        decreases old(self).parser.measure(), 3nat,
    {
        let bits = (self.parse_number)(&self.parser.previous.text);
        proof {
            let written = self.parser.previous.text;
            assert(written@ == self.parser.previous.text@ && call_ensures(
                self.parse_number,
                (&written,),
                bits,
            ));
            let text = self.parser.previous.text@;
            assert(exists|w: Vec<u8>|
                w@ == text && #[trigger] call_ensures(self.parse_number, (&w,), bits));
            assert(Value::Number(bits)->Number_0 == bits);
            assert(crate::compiler::faithful::represents(
                self.gc.heap.slots@,
                self.parse_number,
                Value::Number(bits),
                ConstView::Number(text),
            ));
        }
        self.emit_constant(Value::Number(bits), Ghost(ConstView::Number(self.parser.previous.text@)))
    }

    #[verifier::spinoff_prover]
    fn string(&mut self) -> (r: Result<(), ()>)
        requires
            old(self).wf(),
        ensures
            r.is_err() ==> final(self).errors@.len() > old(self).errors@.len(),
            final(self).wf(),
            final(self).follows(old(self)),
            (final(self)@, r) == old(self)@.emit_constant(
                ConstView::Text(unquoted(old(self)@.parser.previous.text)),
            ),
            r.is_ok() ==> final(self).state().chunk.constants@.len() == old(self).state().chunk.constants@.len() + 1 && final(self).state().chunk.constants@.last() is Obj
                && final(self).gc.heap.object(
                final(self).state().chunk.constants@.last()->Obj_0.index as int,
            ).data.text() == Some(unquoted(old(self).parser.previous.text@)),
        decreases old(self).parser.measure(), 3nat,
    {
        let len = self.parser.previous.text.len();
        let text = if len >= 2 {
            copy_range(&self.parser.previous.text, 1, len - 1)
        } else {
            Vec::new()
        };
        proof {
            assert(text@ =~= unquoted(self.parser.previous.text@));
        }
        let string = self.alloc_safe(&text);
        self.emit_constant(Value::Obj(string), Ghost(ConstView::Text(text@)))
    }

    /// Compiles the arguments of a call, up to the closing parenthesis,
    /// and returns how many there are.
    #[verifier::spinoff_prover]
    fn argument_list(&mut self) -> (r: Result<u8, ()>)
        requires
            old(self).wf(),
        ensures
            r.is_err() ==> final(self).errors@.len() > old(self).errors@.len(),
            final(self).wf(),
            final(self).follows(old(self)),
            (final(self)@, r) == old(self)@.argument_list(),
        decreases old(self).parser.measure(), 2nat,
    {
        let mut count: u8 = 0;
        if !self.check(TokenKind::RParen) {
            let mut more = true;
            while more
                invariant
                    self.wf(),
                    self.follows(old(self)),
                    old(self).parser.current.kind != TokenKind::RParen,
                    more ==> self@.arguments(count) == old(self)@.arguments(0),
                    !more ==> (self@, Ok::<u8, ()>(count)) == old(self)@.arguments(0),
                decreases self.parser.measure(), if more { 1int } else { 0int },
            {
                if self.check(TokenKind::Eof) {
                    return self.error_at_current("Expect expression.");
                }
                match self.expression() {
                    Ok(()) => {},
                    Err(_) => {
                        return Err(());
                    },
                }
                if count == 255 {
                    return self.error("Can't have more than 255 arguments.");
                }
                count = count + 1;
                more = self.check_eat(TokenKind::Comma);
            }
        }
        match self.consume(TokenKind::RParen, "Expect ')' after arguments.") {
            Ok(()) => Ok(count),
            Err(_) => Err(()),
        }
    }

    #[verifier::spinoff_prover]
    fn call(&mut self) -> (r: Result<(), ()>)
        requires
            old(self).wf(),
        ensures
            r.is_err() ==> final(self).errors@.len() > old(self).errors@.len(),
            final(self).wf(),
            final(self).follows(old(self)),
            (final(self)@, r) == old(self)@.call(),
        decreases old(self).parser.measure(), 3nat,
    {
        match self.argument_list() {
            Ok(argc) => {
                self.emit_bytes(Op::Call, argc);
                Ok(())
            },
            Err(_) => Err(()),
        }
    }

    #[verifier::spinoff_prover]
    fn dot(&mut self, can_assign: bool) -> (r: Result<(), ()>)
        requires
            old(self).wf(),
        ensures
            r.is_err() ==> final(self).errors@.len() > old(self).errors@.len(),
            final(self).wf(),
            final(self).follows(old(self)),
            (final(self)@, r) == old(self)@.dot(can_assign),
        decreases old(self).parser.measure(), 3nat,
    {
        match self.consume(TokenKind::Identifier, "Expect property name after '.'.") {
            Ok(()) => {},
            Err(_) => {
                return Err(());
            },
        }
        let text = self.parser.previous.to_static().text;
        let name = match self.identifier_constant(&text) {
            Ok(name) => name,
            Err(_) => {
                return Err(());
            },
        };
        self.property(name, can_assign)
    }

    /// Compiles what is done with the property whose name is the constant
    /// `name`.
    #[verifier::spinoff_prover]
    fn property(&mut self, name: u8, can_assign: bool) -> (r: Result<(), ()>)
        requires
            old(self).wf(),
            name < old(self).state().chunk.constants@.len(),
        ensures
            r.is_err() ==> final(self).errors@.len() > old(self).errors@.len(),
            final(self).wf(),
            final(self).follows(old(self)),
            (final(self)@, r) == old(self)@.property(name, can_assign),
        decreases old(self).parser.measure(), 3nat,
    {
        if can_assign && self.check_eat(TokenKind::Equal) {
            match self.expression() {
                Ok(()) => {},
                Err(_) => {
                    return Err(());
                },
            }
            self.emit_bytes(Op::SetProperty, name);
        } else if self.check_eat(TokenKind::LParen) {
            match self.argument_list() {
                Ok(argc) => self.emit_invoke(Op::Invoke, name, argc),
                Err(_) => {
                    return Err(());
                },
            }
        } else {
            self.emit_bytes(Op::GetProperty, name);
        }
        Ok(())
    }

    #[verifier::spinoff_prover]
    fn and_(&mut self) -> (r: Result<(), ()>)
        requires
            old(self).wf(),
        ensures
            r.is_err() ==> final(self).errors@.len() > old(self).errors@.len(),
            final(self).wf(),
            final(self).follows(old(self)),
            (final(self)@, r) == old(self)@.and_(),
        decreases old(self).parser.measure(), 3nat,
    {
        let end_site = self.emit_jump(Op::JumpIfFalse);
        self.emit_byte(Op::Pop);
        match self.parse_precedence(Precedence::And) {
            Ok(()) => {},
            Err(_) => {
                return Err(());
            },
        }
        let r = self.patch_jump(end_site);
        proof {
            if self.errors@.len() == old(self).errors@.len() {
                assert(self.state().pending@ =~= old(self).state().pending@);
            }
        }
        r
    }

    #[verifier::spinoff_prover]
    fn or_(&mut self) -> (r: Result<(), ()>)
        requires
            old(self).wf(),
        ensures
            r.is_err() ==> final(self).errors@.len() > old(self).errors@.len(),
            final(self).wf(),
            final(self).follows(old(self)),
            (final(self)@, r) == old(self)@.or_(),
        decreases old(self).parser.measure(), 3nat,
    {
        let else_site = self.emit_jump(Op::JumpIfFalse);
        let end_site = self.emit_jump(Op::Jump);
        match self.patch_jump(else_site) {
            Ok(()) => {},
            Err(_) => {
                return Err(());
            },
        }
        self.emit_byte(Op::Pop);
        match self.parse_precedence(Precedence::Or) {
            Ok(()) => {},
            Err(_) => {
                return Err(());
            },
        }
        let r = self.patch_jump(end_site);
        proof {
            if self.errors@.len() == old(self).errors@.len() {
                assert(self.state().pending@ =~= old(self).state().pending@);
            }
        }
        r
    }

    /// How the variable `name` is read and written, and by which operand:
    /// as a local, else as a variable of a function around, else as a
    /// global.
    #[verifier::spinoff_prover]
    fn resolve(&mut self, name: &Vec<u8>) -> (r: Result<(Op, Op, u8), ()>)
        requires
            old(self).wf(),
        ensures
            r.is_err() ==> final(self).errors@.len() > old(self).errors@.len(),
            final(self).wf(),
            final(self).follows(old(self)),
            final(self).parser == old(self).parser,
            (final(self)@, r) == old(self)@.resolve(name@),
            r.is_ok() ==> r.unwrap().0.operand_bytes() == 1 && r.unwrap().1.operand_bytes() == 1
                && r.unwrap().0 != Op::Closure && r.unwrap().1 != Op::Closure && (
            r.unwrap().0.reads_constant() || r.unwrap().1.reads_constant() ==> r.unwrap().2
                < final(self).state().chunk.constants@.len()),
    {
        proof {
            reveal(Model::resolve);
        }
        let last = self.states.len() - 1;
        let local = match self.resolve_local(last, name) {
            Ok(local) => local,
            Err(_) => {
                return Err(());
            },
        };
        match local {
            Some(slot) => Ok((Op::GetLocal, Op::SetLocal, slot)),
            None => {
                let upvalue = match self.resolve_upvalue(last, name) {
                    Ok(upvalue) => upvalue,
                    Err(_) => {
                        return Err(());
                    },
                };
                match upvalue {
                    Some(index) => Ok((Op::GetUpvalue, Op::SetUpvalue, index)),
                    None => match self.identifier_constant(name) {
                        Ok(constant) => Ok((Op::GetGlobal, Op::SetGlobal, constant)),
                        Err(_) => Err(()),
                    },
                }
            },
        }
    }

    /// Compiles a read of the variable `name`, or a write if `can_assign`
    /// and an `=` follows: of the local of that name, else of the variable
    /// of that name that a function around has, else of the global.
    #[verifier::spinoff_prover]
    pub(crate) fn named_variable(&mut self, name: &Vec<u8>, can_assign: bool) -> (r: Result<(), ()>)
        requires
            old(self).wf(),
        ensures
            r.is_err() ==> final(self).errors@.len() > old(self).errors@.len(),
            final(self).wf(),
            final(self).follows(old(self)),
            (final(self)@, r) == old(self)@.named_variable(name@, can_assign),
        decreases old(self).parser.measure(), 2nat,
    {
        let (get, set, operand) = match self.resolve(name) {
            Ok(access) => access,
            Err(_) => {
                return Err(());
            },
        };
        if can_assign && self.check_eat(TokenKind::Equal) {
            match self.expression() {
                Ok(()) => {},
                Err(_) => {
                    return Err(());
                },
            }
            self.emit_bytes(set, operand);
        } else {
            self.emit_bytes(get, operand);
        }
        Ok(())
    }

    /// Compiles the variable named by the token just taken.
    #[verifier::spinoff_prover]
    pub(crate) fn variable(&mut self, can_assign: bool) -> (r: Result<(), ()>)
        requires
            old(self).wf(),
        ensures
            r.is_err() ==> final(self).errors@.len() > old(self).errors@.len(),
            final(self).wf(),
            final(self).follows(old(self)),
            (final(self)@, r) == old(self)@.variable(can_assign),
        decreases old(self).parser.measure(), 3nat,
    {
        let name = self.parser.previous.to_static().text;
        self.named_variable(&name, can_assign)
    }

    #[verifier::spinoff_prover]
    fn this_(&mut self) -> (r: Result<(), ()>)
        requires
            old(self).wf(),
        ensures
            r.is_err() ==> final(self).errors@.len() > old(self).errors@.len(),
            final(self).wf(),
            final(self).follows(old(self)),
            (final(self)@, r) == old(self)@.this_(),
        decreases old(self).parser.measure(), 3nat,
    {
        if self.classes.len() == 0 {
            return self.error("Can't use 'this' outside of a class.");
        }
        let name = bytes_of("this");
        self.named_variable(&name, false)
    }

    #[verifier::spinoff_prover]
    fn super_(&mut self) -> (r: Result<(), ()>)
        requires
            old(self).wf(),
        ensures
            r.is_err() ==> final(self).errors@.len() > old(self).errors@.len(),
            final(self).wf(),
            final(self).follows(old(self)),
            (final(self)@, r) == old(self)@.super_(),
        decreases old(self).parser.measure(), 3nat,
    {
        if self.classes.len() == 0 {
            return self.error("Can't use 'super' outside of a class.");
        }
        if !self.classes[self.classes.len() - 1] {
            return self.error("Can't use 'super' in a class with no superclass.");
        }
        match self.consume(TokenKind::Dot, "Expect '.' after 'super'.") {
            Ok(()) => {},
            Err(_) => {
                return Err(());
            },
        }
        match self.consume(TokenKind::Identifier, "Expect superclass method name.") {
            Ok(()) => {},
            Err(_) => {
                return Err(());
            },
        }
        let text = self.parser.previous.to_static().text;
        let name = match self.identifier_constant(&text) {
            Ok(name) => name,
            Err(_) => {
                return Err(());
            },
        };
        self.super_access(name)
    }

    /// Compiles what `super` stands for once the method's name is the
    /// constant `name`: the instance, the arguments if there are any, the
    /// superclass, and the call or the read of the method.
    #[verifier::spinoff_prover]
    fn super_access(&mut self, name: u8) -> (r: Result<(), ()>)
        requires
            old(self).wf(),
            name < old(self).state().chunk.constants@.len(),
        ensures
            r.is_err() ==> final(self).errors@.len() > old(self).errors@.len(),
            final(self).wf(),
            final(self).follows(old(self)),
            (final(self)@, r) == old(self)@.super_access(name),
        decreases old(self).parser.measure(), 3nat,
    {
        let this = bytes_of("this");
        let superclass = bytes_of("super");
        match self.named_variable(&this, false) {
            Ok(()) => {},
            Err(_) => {
                return Err(());
            },
        }
        if self.check_eat(TokenKind::LParen) {
            let argc = match self.argument_list() {
                Ok(argc) => argc,
                Err(_) => {
                    return Err(());
                },
            };
            match self.named_variable(&superclass, false) {
                Ok(()) => {},
                Err(_) => {
                    return Err(());
                },
            }
            self.emit_invoke(Op::SuperInvoke, name, argc);
        } else {
            match self.named_variable(&superclass, false) {
                Ok(()) => {},
                Err(_) => {
                    return Err(());
                },
            }
            self.emit_bytes(Op::GetSuper, name);
        }
        Ok(())
    }
}

} // verus!
