use vstd::prelude::*;
use vstd::string::StringSliceAdditionalSpecFns;
use crate::chunk::Op;
use crate::compiler::driver::Compiler;
use crate::compiler::model::Model;
use crate::compiler::state::FunctionKind;
use crate::compiler::state::Upvalue;
use crate::compiler::token_kind::TokenKind;
use crate::mem::gc_ref::GcRef;
use crate::text::bytes_eq;
use crate::text::bytes_of;
use crate::value::Value;

verus! {

impl<F: Fn(&Vec<u8>) -> u64> Compiler<F> {
    /// Takes the name of a variable and declares it. Returns the constant
    /// that holds the name of a global; for a local, zero.
    #[verifier::spinoff_prover]
    pub(crate) fn parse_variable(&mut self, error_message: &str) -> (r: Result<u8, ()>)
        requires
            old(self).wf(),
        ensures
            r.is_err() ==> final(self).errors@.len() > old(self).errors@.len(),
            final(self).wf(),
            final(self).follows(old(self)),
            (final(self)@, r) == old(self)@.parse_variable(error_message.spec_bytes()),
            r.is_ok() ==> final(self).parser.measure() < old(self).parser.measure(),
            r.is_ok() && final(self).state().scope_depth == 0 ==> r.unwrap() < final(self).state().chunk.constants@.len(),
            r.is_ok() && final(self).state().scope_depth > 0 ==> final(self).state().locals@.last().depth.is_none(),
    {
        proof {
            reveal(Model::parse_variable);
        }
        match self.consume(TokenKind::Identifier, error_message) {
            Ok(()) => {},
            Err(_) => {
                return Err(());
            },
        }
        match self.declare_variable() {
            Ok(()) => {},
            Err(_) => {
                return Err(());
            },
        }
        let last = self.states.len() - 1;
        if self.states[last].scope_depth > 0 {
            return Ok(0);
        }
        let name = self.parser.previous.to_static().text;
        self.identifier_constant(&name)
    }

    /// Compiles `var`, which is taken: the name, the initializer or nil,
    /// and the definition.
    #[verifier::spinoff_prover]
    pub(crate) fn var_declaration(&mut self) -> (r: Result<(), ()>)
        requires
            old(self).wf(),
        ensures
            r.is_err() ==> final(self).errors@.len() > old(self).errors@.len(),
            final(self).wf(),
            final(self).follows(old(self)),
            (final(self)@, r) == old(self)@.var_declaration(),
        decreases old(self).parser.measure(), 5nat,
    {
        proof {
            reveal(Model::var_declaration);
        }
        let global = match self.parse_variable("Expect variable name.") {
            Ok(global) => global,
            Err(_) => {
                return Err(());
            },
        };
        if self.check_eat(TokenKind::Equal) {
            match self.expression() {
                Ok(()) => {},
                Err(_) => {
                    return Err(());
                },
            }
        } else {
            self.emit_byte(Op::Nil);
        }
        match self.consume(TokenKind::Semicolon, "Expect ';' after variable declaration.") {
            Ok(()) => {},
            Err(_) => {
                return Err(());
            },
        }
        self.define_variable(global);
        Ok(())
    }

    /// Compiles `fun`, which is taken: the name, which the function may
    /// refer to itself by, the function, and the definition.
    #[verifier::spinoff_prover]
    pub(crate) fn fun_declaration(&mut self) -> (r: Result<(), ()>)
        requires
            old(self).wf(),
        ensures
            r.is_err() ==> final(self).errors@.len() > old(self).errors@.len(),
            final(self).wf(),
            final(self).follows(old(self)),
            (final(self)@, r) == old(self)@.fun_declaration(),
        decreases old(self).parser.measure(), 10nat,
    {
        let global = match self.parse_variable("Expect function name.") {
            Ok(global) => global,
            Err(_) => {
                return Err(());
            },
        };
        self.mark_initialized();
        match self.function(FunctionKind::Function) {
            Ok(()) => {},
            Err(_) => {
                return Err(());
            },
        }
        self.define_variable(global);
        Ok(())
    }

    /// The compiler `self` has gone on from `before` as far as the
    /// functions around the innermost are concerned.
    pub open spec fn follows_outside(&self, before: &Self) -> bool {
        &&& self.states@.len() == before.states@.len()
        &&& forall|k: int|
            0 <= k < before.states@.len() - 1 ==> self.states@[k].extends(
                #[trigger] &before.states@[k],
            ) && self.states@[k].arity == before.states@[k].arity && self.states@[k].scope_depth
                == before.states@[k].scope_depth && self.states@[k].chunk == before.states@[k].chunk
                && self.states@[k].marks == before.states@[k].marks && self.states@[k].pending
                == before.states@[k].pending
        &&& self.parser.measure() <= before.parser.measure()
        &&& self.parser.scanner.source == before.parser.scanner.source
        &&& self.classes@ == before.classes@
        &&& self.pinned == before.pinned
        &&& self.parse_number == before.parse_number
        &&& self.errors@.len() >= before.errors@.len()
        &&& before.sound() ==> self.sound()
    }

    /// Compiles a function of kind `fn_kind`, whose name is taken: its
    /// parameters and its body, into a function object of its own; and
    /// emits the `Closure` that makes a closure of it, with one pair of
    /// bytes for each variable it captures.
    #[verifier::spinoff_prover]
    pub(crate) fn function(&mut self, fn_kind: FunctionKind) -> (r: Result<(), ()>)
        requires
            old(self).wf(),
        ensures
            r.is_err() ==> final(self).errors@.len() > old(self).errors@.len(),
            final(self).wf(),
            final(self).follows(old(self)),
            (final(self)@, r) == old(self)@.function(fn_kind),
            r.is_ok() ==> exists|function: GcRef, upvalues: Seq<Upvalue>| #[trigger]
                Self::closure_emitted(old(self), final(self), function, upvalues) && upvalues
                    == old(self)@.init(fn_kind).function_body().0.state().upvalues
                    && Self::compiled_as(
                    &final(self).gc,
                    function,
                    old(self)@.init(fn_kind).function_body().0.state(),
                ),
        decreases old(self).parser.measure(), 10nat,
    {
        self.init(fn_kind);
        let ghost begun = *self;
        let body = self.function_body();
        let ghost body_view = self@.emit_return().state().finished();
        let ghost body_state = *self;
        let (function, upvalues) = self.end_function();
        if body.is_err() {
            return Err(());
        }
        let ghost ended = *self;
        proof {
            assert(crate::compiler::driver::state_faithful(
                body_state.gc.heap.slots@,
                body_state.parse_number,
                body_state.states@[body_state.states@.len() - 1],
            ));
            reveal(Model::emit_return);
            reveal(Model::emit);
            assert(body_view.code.len() > 0);
            assert(body_view.consts == body_state@.state().consts);
            assert(Self::installed(&self.gc, function));
            assert(crate::compiler::faithful::represents(
                self.gc.heap.slots@,
                self.parse_number,
                Value::Obj(function),
                crate::compiler::model::ConstView::Function(body_view),
            ));
            assert(body_state.states@[body_state.states@.len() - 1].ok());
        }
        let r = self.close_over(function, &upvalues, Ghost(body_view));
        proof {
            if r.is_ok() {
                assert(Self::closure_emitted(old(self), self, function, upvalues@));
                assert(Self::compiled_as(
                    &self.gc,
                    function,
                    old(self)@.init(fn_kind).function_body().0.state(),
                ));
            }
        }
        r
    }

    /// Adds the function `function` to the constants and emits the
    /// `Closure` that makes a closure of it, with one pair of bytes for
    /// each of `upvalues`.
    #[verifier::spinoff_prover]
    fn close_over(
        &mut self,
        function: GcRef,
        upvalues: &Vec<Upvalue>,
        Ghost(view): Ghost<crate::compiler::model::FunctionView>,
    ) -> (r: Result<(), ()>)
        requires
            old(self).wf(),
            crate::vm::sound::value_live(old(self).gc.heap.slots@, Value::Obj(function)),
            crate::compiler::faithful::represents(
                old(self).gc.heap.slots@,
                old(self).parse_number,
                Value::Obj(function),
                crate::compiler::model::ConstView::Function(view),
            ),
            crate::compiler::faithful::well_ended(
                crate::compiler::model::ConstView::Function(view),
            ),
        ensures
            r.is_err() ==> final(self).errors@.len() > old(self).errors@.len(),
            final(self).wf(),
            final(self).follows(old(self)),
            final(self).parser == old(self).parser,
            final(self).gc == old(self).gc,
            r.is_ok() ==> old(self).state().chunk.constants@.len() < crate::compiler::state::LIMIT
                && final(self).state().chunk.constants@ == old(self).state().chunk.constants@.push(
                Value::Obj(function),
            ) && final(self).state().chunk.bytecode@ == old(self).state().chunk.bytecode@ + (seq![
                Op::Closure.byte(),
                old(self).state().chunk.constants@.len() as u8,
            ] + crate::compiler::state::pair_bytes(upvalues@)) && final(self).errors == old(self).errors,
            ({
                let (made, constant) = old(self)@.make_constant(
                    crate::compiler::model::ConstView::Function(view),
                );
                (final(self)@, r) == (match constant {
                    Err(_) => (made, Err::<(), ()>(())),
                    Ok(constant) => (
                        made.emit(
                            seq![Op::Closure.byte(), constant] + crate::compiler::state::pair_bytes(
                                upvalues@,
                            ),
                        ),
                        Ok::<(), ()>(()),
                    ),
                })
            }),
    {
        let constant = match self.make_constant(
            Value::Obj(function),
            Ghost(crate::compiler::model::ConstView::Function(view)),
        ) {
            Ok(constant) => constant,
            Err(_) => {
                return Err(());
            },
        };
        let line = self.parser.previous.line;
        let last = self.states.len() - 1;
        let ghost made = *self;
        self.states[last].emit_closure(constant, upvalues, line);
        proof {
            self.lemma_emitted_view(
                &made,
                seq![Op::Closure.byte(), constant] + crate::compiler::state::pair_bytes(upvalues@),
            );
        }
        Ok(())
    }

    /// The function `function` in the heap has the code of `state`, with
    /// the return that ends it, and as many constants and parameters.
    pub open spec fn compiled_as(
        gc: &crate::mem::collector::Gc,
        function: GcRef,
        state: crate::compiler::model::StateView,
    ) -> bool {
        let data = gc.heap.data(function.index as int);
        &&& data->Function_bytecode == state.code + crate::compiler::model::return_bytes(
            state.kind,
        )
        &&& data->Function_constants.len() == state.pool
        &&& data->Function_arity == state.arity
        &&& data->Function_upvalue_count == state.upvalues.len()
    }

    /// The innermost function of `after` is that of `before` with the
    /// function `function` among its constants and with the `Closure`
    /// emitted that makes a closure of it: the instruction, the index of
    /// the constant, and one pair of bytes for each of `upvalues`, which
    /// are as many as the function counts. The function has its code, and
    /// unless an error was reported its jumps lead to instructions.
    pub open spec fn closure_emitted(
        before: &Self,
        after: &Self,
        function: GcRef,
        upvalues: Seq<Upvalue>,
    ) -> bool {
        let index = before.state().chunk.constants@.len();
        &&& index < crate::compiler::state::LIMIT
        &&& after.state().chunk.constants@ == before.state().chunk.constants@.push(
            Value::Obj(function),
        )
        &&& after.state().chunk.bytecode@ == before.state().chunk.bytecode@ + (seq![
            Op::Closure.byte(),
            index as u8,
        ] + crate::compiler::state::pair_bytes(upvalues))
        &&& Self::installed(&after.gc, function)
        &&& after.errors@.len() == before.errors@.len() ==> Self::complete(&after.gc, function)
        &&& after.gc.heap.data(function.index as int)->Function_upvalue_count == upvalues.len()
    }

    /// Compiles the parameters and the body of the innermost function.
    #[verifier::spinoff_prover]
    fn function_body(&mut self) -> (r: Result<(), ()>)
        requires
            old(self).wf(),
            old(self).states@.len() >= 2,
            old(self).state().arity == 0,
        ensures
            r.is_err() ==> final(self).errors@.len() > old(self).errors@.len(),
            final(self).wf(),
            final(self).follows_outside(old(self)),
            final(self).state().extends(&old(self).state()),
            final(self).settled(old(self)),
            (final(self)@, r) == old(self)@.function_body(),
        decreases old(self).parser.measure(), 9nat,
    {
        match self.signature() {
            Ok(()) => {},
            Err(_) => {
                return Err(());
            },
        }
        self.block()
    }

    /// Compiles the parameters of the innermost function, in parentheses,
    /// in a scope that its body shares, and the opening brace of the body.
    #[verifier::spinoff_prover]
    fn signature(&mut self) -> (r: Result<(), ()>)
        requires
            old(self).wf(),
            old(self).states@.len() >= 2,
            old(self).state().arity == 0,
        ensures
            r.is_err() ==> final(self).errors@.len() > old(self).errors@.len(),
            final(self).wf(),
            final(self).follows_outside(old(self)),
            final(self).state().extends(&old(self).state()),
            final(self).settled(old(self)),
            (final(self)@, r) == old(self)@.signature(),
    {
        proof {
            reveal(Model::signature);
        }
        match self.begin_scope() {
            Ok(()) => {},
            Err(_) => {
                return Err(());
            },
        }
        match self.consume(TokenKind::LParen, "Expect '(' after function name.") {
            Ok(()) => {},
            Err(_) => {
                return Err(());
            },
        }
        let ghost opened = *self;
        if !self.check(TokenKind::RParen) {
            let mut more = true;
            while more
                invariant
                    self.wf(),
                    self.follows_outside(old(self)),
                    self.state().extends(&old(self).state()),
                    self.settled(old(self)),
                    self.states@.len() >= 2,
                    self.state().scope_depth > 0,
                    opened@ == old(self)@.begin_scope().0.consume(
                        TokenKind::LParen,
                        "Expect '(' after function name.".spec_bytes(),
                    ).0,
                    old(self)@.begin_scope().1.is_ok(),
                    old(self)@.begin_scope().0.consume(
                        TokenKind::LParen,
                        "Expect '(' after function name.".spec_bytes(),
                    ).1.is_ok(),
                    opened@.parser.current.kind != TokenKind::RParen,
                    more ==> self@.parameters() == opened@.parameters(),
                    !more ==> (self@, Ok::<(), ()>(())) == opened@.parameters(),
                decreases self.parser.measure(), if more { 1int } else { 0int },
            {
                proof {
                    reveal(Model::signature);
                }
                let last = self.states.len() - 1;
                if self.states[last].arity >= 255 {
                    return self.error_at_current("Can't have more than 255 parameters.");
                }
                self.add_parameter();
                let constant = match self.parse_variable("Expect parameter name.") {
                    Ok(constant) => constant,
                    Err(_) => {
                        return Err(());
                    },
                };
                self.define_variable(constant);
                more = self.check_eat(TokenKind::Comma);
            }
        }
        match self.consume(TokenKind::RParen, "Expect ')' after parameters.") {
            Ok(()) => {},
            Err(_) => {
                return Err(());
            },
        }
        self.consume(TokenKind::LBrace, "Expect '{' before function body.")
    }

    /// Counts one more parameter of the innermost function.
    #[verifier::spinoff_prover]
    fn add_parameter(&mut self)
        requires
            old(self).wf(),
            old(self).state().arity < 255,
        ensures
            final(self).wf(),
            final(self).inner_changed(old(self)),
            final(self).errors == old(self).errors,
            final(self).state().arity == old(self).state().arity + 1,
            final(self).state().extends(&old(self).state()),
            final(self).state().scope_depth == old(self).state().scope_depth,
            final(self).state().pending == old(self).state().pending,
            final(self).follows_outside(old(self)),
            final(self)@ == old(self)@.add_parameter(),
    {
        let last = self.states.len() - 1;
        self.states[last].arity = self.states[last].arity + 1;
        proof {
            reveal(Model::add_parameter);
            self.lemma_inner_view(old(self));
        }
    }

    /// Compiles a method, whose class stands on the stack when the code
    /// runs: its name, the function, and the `Method` that installs it.
    #[verifier::spinoff_prover]
    pub(crate) fn method(&mut self) -> (r: Result<(), ()>)
        requires
            old(self).wf(),
        ensures
            r.is_err() ==> final(self).errors@.len() > old(self).errors@.len(),
            final(self).wf(),
            final(self).follows(old(self)),
            (final(self)@, r) == old(self)@.method(),
            r.is_ok() ==> final(self).parser.measure() < old(self).parser.measure(),
        decreases old(self).parser.measure(), 10nat,
    {
        match self.consume(TokenKind::Identifier, "Expect method name.") {
            Ok(()) => {},
            Err(_) => {
                return Err(());
            },
        }
        let name = self.parser.previous.to_static().text;
        let constant = match self.identifier_constant(&name) {
            Ok(constant) => constant,
            Err(_) => {
                return Err(());
            },
        };
        let init = bytes_of("init");
        let kind = if bytes_eq(&name, &init) {
            FunctionKind::Initializer
        } else {
            FunctionKind::Method
        };
        match self.function(kind) {
            Ok(()) => {},
            Err(_) => {
                return Err(());
            },
        }
        self.emit_bytes(Op::Method, constant);
        Ok(())
    }

    /// Compiles `class`, which is taken: the name, the superclass if one
    /// is named, and the methods.
    #[verifier::spinoff_prover]
    pub(crate) fn class_declaration(&mut self) -> (r: Result<(), ()>)
        requires
            old(self).wf(),
        ensures
            r.is_err() ==> final(self).errors@.len() > old(self).errors@.len(),
            final(self).wf(),
            final(self).follows(old(self)),
            (final(self)@, r) == old(self)@.class_declaration(),
        decreases old(self).parser.measure(), 14nat,
    {
        let class_name = match self.class_header() {
            Ok(name) => name,
            Err(_) => {
                return Err(());
            },
        };
        let (heritage, has_superclass) = self.class_heritage(&class_name);
        let r = self.class_body(&class_name, heritage, has_superclass);
        if has_superclass {
            self.end_scope();
        }
        r
    }

    /// Compiles the name of a class: declares it, and emits the `Class`
    /// that makes the class and the definition of its name.
    #[verifier::spinoff_prover]
    fn class_header(&mut self) -> (r: Result<Vec<u8>, ()>)
        requires
            old(self).wf(),
        ensures
            r.is_err() ==> final(self).errors@.len() > old(self).errors@.len(),
            final(self).wf(),
            final(self).follows(old(self)),
            final(self)@ == old(self)@.class_header().0,
            match r {
                Ok(name) => old(self)@.class_header().1 == Ok::<Seq<u8>, ()>(name@),
                Err(_) => old(self)@.class_header().1.is_err(),
            },
    {
        proof {
            reveal(Model::class_header);
        }
        match self.consume(TokenKind::Identifier, "Expect class name.") {
            Ok(()) => {},
            Err(_) => {
                return Err(());
            },
        }
        let class_name = self.parser.previous.to_static().text;
        let name_constant = match self.identifier_constant(&class_name) {
            Ok(constant) => constant,
            Err(_) => {
                return Err(());
            },
        };
        match self.declare_variable() {
            Ok(()) => {},
            Err(_) => {
                return Err(());
            },
        }
        self.emit_bytes(Op::Class, name_constant);
        self.define_variable(name_constant);
        Ok(class_name)
    }

    /// Compiles the methods of a class whose heritage is compiled, in the
    /// context of that class.
    #[verifier::spinoff_prover]
    fn class_body(&mut self, class_name: &Vec<u8>, heritage: Result<(), ()>, has_superclass: bool) -> (r:
        Result<(), ()>)
        requires
            old(self).wf(),
        ensures
            r.is_err() ==> heritage.is_err() || final(self).errors@.len() > old(self).errors@.len(),
            final(self).wf(),
            final(self).follows(old(self)),
            (final(self)@, r) == old(self)@.class_body(class_name@, heritage, has_superclass),
        decreases old(self).parser.measure(), 13nat,
    {
        let ghost classes = self.classes@;
        self.classes.push(has_superclass);
        proof {
            reveal(Model::enter_class);
        }
        let r = match heritage {
            Ok(()) => self.class_methods(class_name),
            Err(_) => Err(()),
        };
        let ghost compiled = *self;
        self.classes.pop();
        proof {
            reveal(Model::leave_class);
            assert(self.classes@ =~= classes);
            assert(self@ == compiled@.leave_class());
        }
        r
    }

    /// Compiles the superclass of a class, if one is named: the
    /// superclass is kept in a local named `super`, in a scope of its own,
    /// and `Inherit` hands its methods to the class. Says whether that
    /// scope was entered.
    #[verifier::spinoff_prover]
    fn class_heritage(&mut self, class_name: &Vec<u8>) -> (r: (Result<(), ()>, bool))
        requires
            old(self).wf(),
        ensures
            r.0.is_err() ==> final(self).errors@.len() > old(self).errors@.len(),
            final(self).wf(),
            final(self).continues(old(self)),
            (final(self)@, r.0, r.1) == old(self)@.class_heritage(class_name@),
            forall|k: int|
                0 <= k < old(self).states@.len() - 1 ==> final(self).states@[k].scope_depth == (
                #[trigger] old(self).states@[k]).scope_depth,
            final(self).state().scope_depth == old(self).state().scope_depth + (if r.1 {
                1int
            } else {
                0int
            }),
        decreases old(self).parser.measure(), 11nat,
    {
        proof {
            reveal(Model::class_heritage);
        }
        if !self.check_eat(TokenKind::Less) {
            return (Ok(()), false);
        }
        match self.consume(TokenKind::Identifier, "Expect superclass name.") {
            Ok(()) => {},
            Err(_) => {
                return (Err(()), false);
            },
        }
        let superclass = self.parser.previous.to_static().text;
        match self.variable(false) {
            Ok(()) => {},
            Err(_) => {
                return (Err(()), false);
            },
        }
        if bytes_eq(&superclass, class_name) {
            return (self.error("A class can't inherit from itself."), false);
        }
        match self.begin_scope() {
            Ok(()) => {},
            Err(_) => {
                return (Err(()), false);
            },
        }
        match self.add_local(bytes_of("super")) {
            Ok(()) => {},
            Err(_) => {
                return (Err(()), true);
            },
        }
        self.define_variable(0);
        match self.named_variable(class_name, false) {
            Ok(()) => {},
            Err(_) => {
                return (Err(()), true);
            },
        }
        self.emit_byte(Op::Inherit);
        (Ok(()), true)
    }

    /// Compiles every method up to a closing brace or the end of the
    /// source.
    #[verifier::spinoff_prover]
    fn methods(&mut self) -> (r: Result<(), ()>)
        requires
            old(self).wf(),
        ensures
            r.is_err() ==> final(self).errors@.len() > old(self).errors@.len(),
            final(self).wf(),
            final(self).follows(old(self)),
            (final(self)@, r) == old(self)@.methods(),
        decreases old(self).parser.measure(), 11nat,
    {
        while !self.check(TokenKind::RBrace) && !self.check(TokenKind::Eof)
            invariant
                self.wf(),
                self.follows(old(self)),
                self@.methods() == old(self)@.methods(),
            decreases self.parser.measure(),
        {
            match self.method() {
                Ok(()) => {},
                Err(_) => {
                    return Err(());
                },
            }
        }
        Ok(())
    }

    /// Compiles the body of a class: the class is put on the stack, each
    /// method is compiled and installed, and the class is dropped again.
    #[verifier::spinoff_prover]
    fn class_methods(&mut self, class_name: &Vec<u8>) -> (r: Result<(), ()>)
        requires
            old(self).wf(),
        ensures
            r.is_err() ==> final(self).errors@.len() > old(self).errors@.len(),
            final(self).wf(),
            final(self).follows(old(self)),
            (final(self)@, r) == old(self)@.class_methods(class_name@),
        decreases old(self).parser.measure(), 12nat,
    {
        match self.named_variable(class_name, false) {
            Ok(()) => {},
            Err(_) => {
                return Err(());
            },
        }
        match self.consume(TokenKind::LBrace, "Expect '{' before class body.") {
            Ok(()) => {},
            Err(_) => {
                return Err(());
            },
        }
        match self.methods() {
            Ok(()) => {},
            Err(_) => {
                return Err(());
            },
        }
        match self.consume(TokenKind::RBrace, "Expect '}' after class body.") {
            Ok(()) => {},
            Err(_) => {
                return Err(());
            },
        }
        self.emit_byte(Op::Pop);
        Ok(())
    }
}

} // verus!
