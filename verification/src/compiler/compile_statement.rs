use vstd::prelude::*;
use vstd::string::StringSliceAdditionalSpecFns;
use crate::chunk::Op;
use crate::compiler::driver::Compiler;
use crate::compiler::model::Model;
use crate::compiler::model::ParserView;
use crate::compiler::model_statement::option_site;
use crate::compiler::model_statement::site_of;
use crate::compiler::model_statement::sites_of;
use crate::compiler::state::starts_at;
use crate::compiler::state::FunctionKind;
use crate::compiler::token_kind::TokenKind;

verus! {

impl<F: Fn(&Vec<u8>) -> u64> Compiler<F> {
    /// Compiles the declarations of a block, up to its closing brace.
    #[verifier::spinoff_prover]
    pub(crate) fn block(&mut self) -> (r: Result<(), ()>)
        requires
            old(self).wf(),
        ensures
            r.is_err() ==> final(self).errors@.len() > old(self).errors@.len(),
            final(self).wf(),
            final(self).follows(old(self)),
            (final(self)@, r) == old(self)@.block(),
        decreases old(self).parser.measure(), 8nat,
    {
        while !self.check(TokenKind::RBrace) && !self.check(TokenKind::Eof)
            invariant
                self.wf(),
                self.follows(old(self)),
                self@.declarations() == old(self)@.declarations(),
            decreases self.parser.measure(),
        {
            self.declaration();
        }
        self.consume(TokenKind::RBrace, "Expect '}' after block.")
    }

    /// Compiles a declaration: of a class, a function or a variable, or a
    /// statement. After an error, tokens are passed over up to where the
    /// next statement may start.
    #[verifier::spinoff_prover]
    pub(crate) fn declaration(&mut self)
        requires
            old(self).wf(),
        ensures
            final(self).wf(),
            final(self).follows(old(self)),
            final(self).progressed(old(self)),
            final(self)@ == old(self)@.declaration(),
        decreases old(self).parser.measure(), 7nat,
    {
        let r = if self.check_eat(TokenKind::Class) {
            self.class_declaration()
        } else if self.check_eat(TokenKind::Fun) {
            self.fun_declaration()
        } else if self.check_eat(TokenKind::Var) {
            self.var_declaration()
        } else {
            self.statement()
        };
        if r.is_err() {
            self.synchronize();
        }
    }

    /// Passes over tokens up to the end of the statement, or to a token
    /// that begins one, after an error. Tokens that cannot be read are not
    /// reported.
    #[verifier::spinoff_prover]
    pub(crate) fn synchronize(&mut self)
        requires
            old(self).wf(),
            old(self).errors@.len() > 0,
        ensures
            final(self).wf(),
            final(self).follows(old(self)),
            final(self).idle(old(self)),
            final(self).errors@ == old(self).errors@,
            final(self)@ == old(self)@.synchronize(),
    {
        self.parser.panic_mode = true;
        loop
            invariant_except_break
                self@.synchronize() == old(self)@.synchronize(),
            invariant
                self.parser.wf(),
                self.parser.panic_mode,
                self.idle(old(self)),
                self.errors@ == old(self).errors@,
                self.parser.measure() <= old(self).parser.measure(),
                self.parser.scanner.source == old(self).parser.scanner.source,
            ensures
                self@ == old(self)@.synchronize(),
            decreases self.parser.measure(),
        {
            if self.parser.current.kind == TokenKind::Eof {
                break ;
            }
            if self.parser.previous.kind == TokenKind::Semicolon {
                break ;
            }
            match self.parser.current.kind {
                TokenKind::Class | TokenKind::Fun | TokenKind::Var | TokenKind::For | TokenKind::If
                | TokenKind::While | TokenKind::Print | TokenKind::Return => {
                    break ;
                },
                _ => {},
            }
            let ghost before = *self;
            self.parser.advance(&mut self.errors);
            proof {
                reveal(ParserView::advance);
                reveal(Model::skip);
                assert(self@ == before@.skip());
            }
        }
        self.parser.panic_mode = false;
    }

    /// Compiles a statement.
    #[verifier::spinoff_prover]
    pub(crate) fn statement(&mut self) -> (r: Result<(), ()>)
        requires
            old(self).wf(),
        ensures
            r.is_err() ==> final(self).errors@.len() > old(self).errors@.len(),
            final(self).wf(),
            final(self).follows(old(self)),
            final(self).progressed(old(self)),
            (final(self)@, r) == old(self)@.statement(),
        decreases old(self).parser.measure(), 6nat,
    {
        if self.check_eat(TokenKind::Print) {
            self.print_statement()
        } else if self.check_eat(TokenKind::For) {
            self.for_statement()
        } else if self.check_eat(TokenKind::If) {
            self.if_statement()
        } else if self.check_eat(TokenKind::Return) {
            self.return_statement()
        } else if self.check_eat(TokenKind::While) {
            self.while_statement()
        } else if self.check_eat(TokenKind::LBrace) {
            self.scoped_block()
        } else {
            self.expression_statement()
        }
    }

    /// Compiles a block, whose opening brace is taken, in a scope of its
    /// own.
    #[verifier::spinoff_prover]
    fn scoped_block(&mut self) -> (r: Result<(), ()>)
        requires
            old(self).wf(),
        ensures
            r.is_err() ==> final(self).errors@.len() > old(self).errors@.len(),
            final(self).wf(),
            final(self).follows(old(self)),
            old(self)@.begin_scope().0.within(old(self)@),
            ({
                let (scoped, went) = old(self)@.begin_scope();
                (final(self)@, r) == (if went.is_err() {
                    (scoped, Err::<(), ()>(()))
                } else {
                    (scoped.block().0.end_scope(), scoped.block().1)
                })
            }),
        decreases old(self).parser.measure(), 9nat,
    {
        match self.begin_scope() {
            Ok(()) => {},
            Err(_) => {
                return Err(());
            },
        }
        let r = self.block();
        self.end_scope();
        r
    }

    /// Compiles an expression whose value is dropped.
    #[verifier::spinoff_prover]
    pub(crate) fn expression_statement(&mut self) -> (r: Result<(), ()>)
        requires
            old(self).wf(),
        ensures
            r.is_err() ==> final(self).errors@.len() > old(self).errors@.len(),
            final(self).wf(),
            final(self).follows(old(self)),
            final(self).progressed(old(self)),
            (final(self)@, r) == old(self)@.expression_statement(),
        decreases old(self).parser.measure(), 5nat,
    {
        proof {
            reveal(Model::expression_statement);
        }
        match self.expression() {
            Ok(()) => {},
            Err(_) => {
                return Err(());
            },
        }
        match self.consume(TokenKind::Semicolon, "Expect ';' after expression.") {
            Ok(()) => {},
            Err(_) => {
                return Err(());
            },
        }
        self.emit_byte(Op::Pop);
        Ok(())
    }

    /// Compiles `print`, which is taken, and the value to print.
    #[verifier::spinoff_prover]
    pub(crate) fn print_statement(&mut self) -> (r: Result<(), ()>)
        requires
            old(self).wf(),
        ensures
            r.is_err() ==> final(self).errors@.len() > old(self).errors@.len(),
            final(self).wf(),
            final(self).follows(old(self)),
            (final(self)@, r) == old(self)@.print_statement(),
        decreases old(self).parser.measure(), 5nat,
    {
        proof {
            reveal(Model::print_statement);
        }
        match self.expression() {
            Ok(()) => {},
            Err(_) => {
                return Err(());
            },
        }
        match self.consume(TokenKind::Semicolon, "Expect ';' after value.") {
            Ok(()) => {},
            Err(_) => {
                return Err(());
            },
        }
        self.emit_byte(Op::Print);
        Ok(())
    }

    /// Compiles `return`, which is taken, and the value to return if
    /// there is one. The script returns nothing, and an initializer no
    /// value.
    #[verifier::spinoff_prover]
    pub(crate) fn return_statement(&mut self) -> (r: Result<(), ()>)
        requires
            old(self).wf(),
        ensures
            r.is_err() ==> final(self).errors@.len() > old(self).errors@.len(),
            final(self).wf(),
            final(self).follows(old(self)),
            (final(self)@, r) == old(self)@.return_statement(),
        decreases old(self).parser.measure(), 5nat,
    {
        proof {
            reveal(Model::return_statement);
        }
        let last = self.states.len() - 1;
        let kind = self.states[last].fn_kind;
        if kind == FunctionKind::Script {
            return self.error("Can't return from top-level code.");
        }
        if self.check_eat(TokenKind::Semicolon) {
            self.emit_return();
            return Ok(());
        }
        if kind == FunctionKind::Initializer {
            return self.error("Can't return a value from an initializer.");
        }
        match self.expression() {
            Ok(()) => {},
            Err(_) => {
                return Err(());
            },
        }
        match self.consume(TokenKind::Semicolon, "Expect ';' after return value.") {
            Ok(()) => {},
            Err(_) => {
                return Err(());
            },
        }
        self.emit_byte(Op::Return);
        Ok(())
    }

    /// Compiles a condition in parentheses, the jump that is taken if it
    /// is false, and the `Pop` that drops it if it is true. Returns where
    /// the operand of the jump stands. The message `opening` is for a
    /// missing opening parenthesis.
    #[verifier::spinoff_prover]
    fn condition(&mut self, opening: &str) -> (r: Result<usize, ()>)
        requires
            old(self).wf(),
        ensures
            r.is_err() ==> final(self).errors@.len() > old(self).errors@.len(),
            final(self).wf(),
            final(self).carries(old(self)),
            final(self).level(old(self)),
            r.is_ok() ==> final(self).state().jump_site(r.unwrap() as int)
                && !old(self).state().pending@.contains(r.unwrap() as int),
            r.is_ok() && final(self).errors@.len() == old(self).errors@.len()
                ==> final(self).state().pending@ == old(self).state().pending@.insert(
                r.unwrap() as int,
            ),
            (final(self)@, site_of(r)) == old(self)@.condition(opening.spec_bytes()),
        decreases old(self).parser.measure(), 8nat,
    {
        proof {
            reveal(Model::condition);
        }
        match self.consume(TokenKind::LParen, opening) {
            Ok(()) => {},
            Err(_) => {
                return Err(());
            },
        }
        match self.expression() {
            Ok(()) => {},
            Err(_) => {
                return Err(());
            },
        }
        match self.consume(TokenKind::RParen, "Expect ')' after condition.") {
            Ok(()) => {},
            Err(_) => {
                return Err(());
            },
        }
        let ghost tested = *self;
        let site = self.emit_jump(Op::JumpIfFalse);
        self.emit_byte(Op::Pop);
        proof {
            if old(self).state().pending@.contains(site as int) {
                assert(old(self).state().ok());
                assert(tested.state().extends(&old(self).state()));
            }
        }
        Ok(site)
    }

    /// Compiles `if`, which is taken: the condition, a jump over the
    /// first branch if it is false, the branch, a jump over the second,
    /// and the second if there is one.
    #[verifier::spinoff_prover]
    pub(crate) fn if_statement(&mut self) -> (r: Result<(), ()>)
        requires
            old(self).wf(),
        ensures
            r.is_err() ==> final(self).errors@.len() > old(self).errors@.len(),
            final(self).wf(),
            final(self).follows(old(self)),
            (final(self)@, r) == old(self)@.if_statement(),
        decreases old(self).parser.measure(), 9nat,
    {
        let then_site = match self.condition("Expect '(' after 'if'.") {
            Ok(site) => site,
            Err(_) => {
                return Err(());
            },
        };
        match self.statement() {
            Ok(()) => {},
            Err(_) => {
                return Err(());
            },
        }
        let r = self.else_branch(then_site);
        proof {
            if self.errors@.len() == old(self).errors@.len() {
                assert(self.state().pending@ =~= old(self).state().pending@);
            }
        }
        r
    }

    /// Compiles what follows the first branch of an `if` whose jump over
    /// that branch has its operand at `then_site`: the jump over the
    /// second branch, and that branch if there is one.
    #[verifier::spinoff_prover]
    fn else_branch(&mut self, then_site: usize) -> (r: Result<(), ()>)
        requires
            old(self).wf(),
            old(self).state().jump_site(then_site as int),
        ensures
            r.is_err() ==> final(self).errors@.len() > old(self).errors@.len(),
            final(self).wf(),
            final(self).carries(old(self)),
            final(self).level(old(self)),
            final(self).errors@.len() == old(self).errors@.len() ==> final(self).state().pending@
                == old(self).state().pending@.remove(then_site as int),
            (final(self)@, r) == old(self)@.else_branch(then_site as int),
        decreases old(self).parser.measure(), 8nat,
    {
        let else_site = self.emit_jump(Op::Jump);
        match self.patch_jump(then_site) {
            Ok(()) => {},
            Err(_) => {
                return Err(());
            },
        }
        self.emit_byte(Op::Pop);
        if self.check_eat(TokenKind::Else) {
            match self.statement() {
                Ok(()) => {},
                Err(_) => {
                    return Err(());
                },
            }
        }
        let r = self.patch_jump(else_site);
        proof {
            if self.errors@.len() == old(self).errors@.len() {
                assert(self.state().pending@ =~= old(self).state().pending@.remove(
                    then_site as int,
                ));
            }
        }
        r
    }

    /// Compiles `while`, which is taken: the condition, a jump out if it
    /// is false, the body, and a jump back to the condition.
    #[verifier::spinoff_prover]
    pub(crate) fn while_statement(&mut self) -> (r: Result<(), ()>)
        requires
            old(self).wf(),
        ensures
            r.is_err() ==> final(self).errors@.len() > old(self).errors@.len(),
            final(self).wf(),
            final(self).follows(old(self)),
            (final(self)@, r) == old(self)@.while_statement(),
        decreases old(self).parser.measure(), 9nat,
    {
        let last = self.states.len() - 1;
        let loop_start = self.states[last].chunk.bytecode.len();
        assert(starts_at(self.state().chunk.bytecode@, self.state().marks@, loop_start as int));
        let exit_site = match self.condition("Expect '(' after 'while'.") {
            Ok(site) => site,
            Err(_) => {
                return Err(());
            },
        };
        match self.statement() {
            Ok(()) => {},
            Err(_) => {
                return Err(());
            },
        }
        proof {
            assert(starts_at(self.state().chunk.bytecode@, self.state().marks@, loop_start as int));
        }
        let r = self.loop_end(loop_start, Some(exit_site));
        proof {
            if self.errors@.len() == old(self).errors@.len() {
                assert(self.state().pending@ =~= old(self).state().pending@);
            }
        }
        r
    }

    /// Compiles the end of a loop: the jump back to `loop_start`, and the
    /// landing of the jump out of the loop, if it has one, with the `Pop`
    /// that drops the condition.
    #[verifier::spinoff_prover]
    fn loop_end(&mut self, loop_start: usize, exit_site: Option<usize>) -> (r: Result<(), ()>)
        requires
            old(self).wf(),
            starts_at(
                old(self).state().chunk.bytecode@,
                old(self).state().marks@,
                loop_start as int,
            ),
            exit_site.is_some() ==> old(self).state().jump_site(exit_site.unwrap() as int),
        ensures
            r.is_err() ==> final(self).errors@.len() > old(self).errors@.len(),
            final(self).wf(),
            final(self).carries(old(self)),
            final(self).level(old(self)),
            final(self).parser == old(self).parser,
            final(self).errors@.len() == old(self).errors@.len() ==> final(self).state().pending@
                == (match exit_site {
                Some(site) => old(self).state().pending@.remove(site as int),
                None => old(self).state().pending@,
            }),
            (final(self)@, r) == old(self)@.loop_end(loop_start as int, option_site(exit_site)),
    {
        proof {
            reveal(Model::loop_end);
        }
        match self.emit_loop(loop_start) {
            Ok(()) => {},
            Err(_) => {
                return Err(());
            },
        }
        match exit_site {
            Some(site) => {
                match self.patch_jump(site) {
                    Ok(()) => {},
                    Err(_) => {
                        return Err(());
                    },
                }
                self.emit_byte(Op::Pop);
            },
            None => {},
        }
        Ok(())
    }

    /// Compiles `for`, which is taken, in a scope of its own.
    #[verifier::spinoff_prover]
    pub(crate) fn for_statement(&mut self) -> (r: Result<(), ()>)
        requires
            old(self).wf(),
        ensures
            r.is_err() ==> final(self).errors@.len() > old(self).errors@.len(),
            final(self).wf(),
            final(self).follows(old(self)),
            (final(self)@, r) == old(self)@.for_statement(),
        decreases old(self).parser.measure(), 10nat,
    {
        match self.begin_scope() {
            Ok(()) => {},
            Err(_) => {
                return Err(());
            },
        }
        let r = self.for_clauses();
        self.end_scope();
        r
    }

    /// Compiles the clauses and the body of a `for`: the initializer; the
    /// condition, with a jump out if it is false; the increment, which the
    /// body jumps over at first and loops back to; and the body.
    #[verifier::spinoff_prover]
    fn for_clauses(&mut self) -> (r: Result<(), ()>)
        requires
            old(self).wf(),
        ensures
            r.is_err() ==> final(self).errors@.len() > old(self).errors@.len(),
            final(self).wf(),
            final(self).follows(old(self)),
            (final(self)@, r) == old(self)@.for_clauses(),
        decreases old(self).parser.measure(), 9nat,
    {
        match self.for_initializer() {
            Ok(()) => {},
            Err(_) => {
                return Err(());
            },
        }
        let last = self.states.len() - 1;
        let loop_start = self.states[last].chunk.bytecode.len();
        assert(starts_at(self.state().chunk.bytecode@, self.state().marks@, loop_start as int));
        let ghost begun = *self;
        let exit_site = match self.for_condition() {
            Ok(site) => site,
            Err(_) => {
                return Err(());
            },
        };
        proof {
            assert(starts_at(self.state().chunk.bytecode@, self.state().marks@, loop_start as int));
        }
        let loop_start = match self.for_increment(loop_start) {
            Ok(start) => start,
            Err(_) => {
                return Err(());
            },
        };
        let r = self.for_body(loop_start, exit_site);
        proof {
            if self.errors@.len() == old(self).errors@.len() {
                assert(self.state().pending@ =~= old(self).state().pending@);
            }
        }
        r
    }

    /// Compiles the opening parenthesis of a `for` and its initializer:
    /// nothing, a variable, or an expression.
    #[verifier::spinoff_prover]
    fn for_initializer(&mut self) -> (r: Result<(), ()>)
        requires
            old(self).wf(),
        ensures
            r.is_err() ==> final(self).errors@.len() > old(self).errors@.len(),
            final(self).wf(),
            final(self).follows(old(self)),
            (final(self)@, r) == old(self)@.for_initializer(),
        decreases old(self).parser.measure(), 8nat,
    {
        proof {
            reveal(Model::for_initializer);
        }
        match self.consume(TokenKind::LParen, "Expect '(' after 'for'.") {
            Ok(()) => {},
            Err(_) => {
                return Err(());
            },
        }
        if self.check_eat(TokenKind::Semicolon) {
            Ok(())
        } else if self.check_eat(TokenKind::Var) {
            self.var_declaration()
        } else {
            self.expression_statement()
        }
    }

    /// Compiles the condition of a `for`, if it has one, with the jump
    /// out of the loop, and returns where that jump is to be patched.
    #[verifier::spinoff_prover]
    fn for_condition(&mut self) -> (r: Result<Option<usize>, ()>)
        requires
            old(self).wf(),
        ensures
            r.is_err() ==> final(self).errors@.len() > old(self).errors@.len(),
            final(self).wf(),
            final(self).carries(old(self)),
            final(self).level(old(self)),
            r.is_ok() && r.unwrap().is_some() ==> final(self).state().jump_site(
                r.unwrap().unwrap() as int,
            ) && !old(self).state().pending@.contains(r.unwrap().unwrap() as int),
            final(self).errors@.len() == old(self).errors@.len() ==> final(self).state().pending@
                == (match r {
                Ok(Some(site)) => old(self).state().pending@.insert(site as int),
                _ => old(self).state().pending@,
            }),
            (final(self)@, sites_of(r)) == old(self)@.for_condition(),
        decreases old(self).parser.measure(), 8nat,
    {
        proof {
            reveal(Model::for_condition);
        }
        if self.check_eat(TokenKind::Semicolon) {
            return Ok(None);
        }
        match self.expression() {
            Ok(()) => {},
            Err(_) => {
                return Err(());
            },
        }
        match self.consume(TokenKind::Semicolon, "Expect ';' after loop condition.") {
            Ok(()) => {},
            Err(_) => {
                return Err(());
            },
        }
        let ghost tested = *self;
        let site = self.emit_jump(Op::JumpIfFalse);
        self.emit_byte(Op::Pop);
        proof {
            if old(self).state().pending@.contains(site as int) {
                assert(old(self).state().ok());
                assert(tested.state().extends(&old(self).state()));
            }
        }
        Ok(Some(site))
    }

    /// Compiles the increment of a `for`, if it has one: the body jumps
    /// over it at first, and it loops back to `loop_start`. Returns where
    /// the body is to loop back to.
    #[verifier::spinoff_prover]
    fn for_increment(&mut self, loop_start: usize) -> (r: Result<usize, ()>)
        requires
            old(self).wf(),
            starts_at(
                old(self).state().chunk.bytecode@,
                old(self).state().marks@,
                loop_start as int,
            ),
        ensures
            r.is_err() ==> final(self).errors@.len() > old(self).errors@.len(),
            final(self).wf(),
            final(self).follows(old(self)),
            r.is_ok() ==> starts_at(
                final(self).state().chunk.bytecode@,
                final(self).state().marks@,
                r.unwrap() as int,
            ),
            (final(self)@, site_of(r)) == old(self)@.for_increment(loop_start as int),
        decreases old(self).parser.measure(), 8nat,
    {
        proof {
            reveal(Model::for_increment);
        }
        if self.check_eat(TokenKind::RParen) {
            return Ok(loop_start);
        }
        let body_site = self.emit_jump(Op::Jump);
        let last = self.states.len() - 1;
        let increment_start = self.states[last].chunk.bytecode.len();
        assert(starts_at(
            self.state().chunk.bytecode@,
            self.state().marks@,
            increment_start as int,
        ));
        let ghost jumped = *self;
        match self.expression() {
            Ok(()) => {},
            Err(_) => {
                return Err(());
            },
        }
        self.emit_byte(Op::Pop);
        match self.consume(TokenKind::RParen, "Expect ')' after for clauses.") {
            Ok(()) => {},
            Err(_) => {
                return Err(());
            },
        }
        proof {
            assert(starts_at(self.state().chunk.bytecode@, self.state().marks@, loop_start as int));
        }
        match self.emit_loop(loop_start) {
            Ok(()) => {},
            Err(_) => {
                return Err(());
            },
        }
        let r = self.patch_jump(body_site);
        proof {
            assert(starts_at(
                self.state().chunk.bytecode@,
                self.state().marks@,
                increment_start as int,
            ));
            if self.errors@.len() == old(self).errors@.len() {
                assert(self.state().pending@ =~= old(self).state().pending@);
            }
        }
        match r {
            Ok(()) => Ok(increment_start),
            Err(_) => Err(()),
        }
    }

    /// Compiles the body of a `for`, the jump back to `loop_start`, and
    /// the landing of the jump out of the loop.
    #[verifier::spinoff_prover]
    fn for_body(&mut self, loop_start: usize, exit_site: Option<usize>) -> (r: Result<(), ()>)
        requires
            old(self).wf(),
            starts_at(
                old(self).state().chunk.bytecode@,
                old(self).state().marks@,
                loop_start as int,
            ),
            exit_site.is_some() ==> old(self).state().jump_site(exit_site.unwrap() as int),
        ensures
            r.is_err() ==> final(self).errors@.len() > old(self).errors@.len(),
            final(self).wf(),
            final(self).carries(old(self)),
            final(self).level(old(self)),
            final(self).errors@.len() == old(self).errors@.len() ==> final(self).state().pending@
                == (match exit_site {
                Some(site) => old(self).state().pending@.remove(site as int),
                None => old(self).state().pending@,
            }),
            (final(self)@, r) == old(self)@.for_body(loop_start as int, option_site(exit_site)),
        decreases old(self).parser.measure(), 8nat,
    {
        match self.statement() {
            Ok(()) => {},
            Err(_) => {
                return Err(());
            },
        }
        proof {
            assert(starts_at(self.state().chunk.bytecode@, self.state().marks@, loop_start as int));
        }
        self.loop_end(loop_start, exit_site)
    }
}

} // verus!
