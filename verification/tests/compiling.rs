use rlox::chunk::Op;
use rlox::compiler::driver::compile;
use rlox::compiler::parser::error_at;
use rlox::compiler::parser::Parser;
use rlox::compiler::token::Token;
use rlox::compiler::token_kind::TokenKind;
use rlox::mem::collector::Gc;
use rlox::mem::gc_ref::GcRef;
use rlox::obj::obj_function::ObjFunction;
use rlox::value::Value;

fn number_of(text: &Vec<u8>) -> u64 {
    std::str::from_utf8(text).unwrap().parse::<f64>().unwrap().to_bits()
}

fn compiled(source: &str) -> (Gc, GcRef) {
    let (gc, result) = compile(source, Gc::new(), Vec::new(), number_of);
    match result {
        Ok(function) => (gc, function),
        Err(errors) => panic!("{}", String::from_utf8(errors[0].text()).unwrap()),
    }
}

fn errors_of(source: &str) -> Vec<String> {
    let (_, result) = compile(source, Gc::new(), Vec::new(), number_of);
    match result {
        Ok(_) => Vec::new(),
        Err(errors) => errors.iter().map(|error| String::from_utf8(error.text()).unwrap()).collect(),
    }
}

fn messages_of(source: &str) -> Vec<String> {
    let (_, result) = compile(source, Gc::new(), Vec::new(), number_of);
    match result {
        Ok(_) => Vec::new(),
        Err(errors) => {
            errors.iter().map(|error| String::from_utf8(error.message.clone()).unwrap()).collect()
        }
    }
}

fn b(op: Op) -> u8 {
    op.to_byte()
}

fn text_of(gc: &Gc, value: Value) -> String {
    match value {
        Value::Obj(r) => String::from_utf8(gc.heap.string(r).unwrap().text.clone()).unwrap(),
        other => panic!("no string: {:?}", other),
    }
}

fn function_constant<'a>(gc: &'a Gc, function: &ObjFunction, index: usize) -> &'a ObjFunction {
    match function.chunk.constants[index] {
        Value::Obj(r) => gc.heap.function(r).unwrap(),
        other => panic!("no function: {:?}", other),
    }
}

#[test]
fn the_empty_program_returns_nil() {
    let (gc, function) = compiled("");
    let script = gc.heap.function(function).unwrap();
    assert_eq!(script.chunk.bytecode, vec![b(Op::Nil), b(Op::Return)]);
    assert_eq!(script.arity, 0);
    assert_eq!(script.upvalue_count, 0);
    assert_eq!(script.name, None);
}

#[test]
fn an_expression_statement_drops_its_value() {
    let (gc, function) = compiled("1 + 2 * 3;");
    let script = gc.heap.function(function).unwrap();
    assert_eq!(
        script.chunk.bytecode,
        vec![
            b(Op::Constant), 0, b(Op::Constant), 1, b(Op::Constant), 2, b(Op::Multiply), b(Op::Add),
            b(Op::Pop), b(Op::Nil), b(Op::Return),
        ]
    );
    assert_eq!(script.chunk.constants, vec![
        Value::Number(1.0f64.to_bits()),
        Value::Number(2.0f64.to_bits()),
        Value::Number(3.0f64.to_bits()),
    ]);
    assert_eq!(script.chunk.lines, vec![1; 11]);
}

#[test]
fn comparisons_without_an_instruction_are_negated() {
    let (gc, function) = compiled("1 <= 2; 1 >= 2; 1 != 2; !true; -1;");
    let code = &gc.heap.function(function).unwrap().chunk.bytecode;
    assert_eq!(
        code,
        &vec![
            b(Op::Constant), 0, b(Op::Constant), 1, b(Op::Greater), b(Op::Not), b(Op::Pop),
            b(Op::Constant), 2, b(Op::Constant), 3, b(Op::Less), b(Op::Not), b(Op::Pop),
            b(Op::Constant), 4, b(Op::Constant), 5, b(Op::Equal), b(Op::Not), b(Op::Pop),
            b(Op::True), b(Op::Not), b(Op::Pop),
            b(Op::Constant), 6, b(Op::Negate), b(Op::Pop),
            b(Op::Nil), b(Op::Return),
        ]
    );
}

#[test]
fn globals_are_named_by_constants_and_locals_by_slots() {
    let (gc, function) = compiled("var g = nil; { var l = true; l = g; print l; }");
    let script = gc.heap.function(function).unwrap();
    assert_eq!(
        script.chunk.bytecode,
        vec![
            b(Op::Nil), b(Op::DefineGlobal), 0,
            b(Op::True),
            b(Op::GetGlobal), 1, b(Op::SetLocal), 1, b(Op::Pop),
            b(Op::GetLocal), 1, b(Op::Print),
            b(Op::Pop),
            b(Op::Nil), b(Op::Return),
        ]
    );
    assert_eq!(text_of(&gc, script.chunk.constants[0]), "g");
    assert_eq!(text_of(&gc, script.chunk.constants[1]), "g");
    assert_eq!(script.chunk.constants[0], script.chunk.constants[1]);
}

#[test]
fn if_jumps_over_each_branch() {
    let (gc, function) = compiled("if (true) print 1; else print 2;");
    let code = &gc.heap.function(function).unwrap().chunk.bytecode;
    assert_eq!(
        code,
        &vec![
            b(Op::True),
            b(Op::JumpIfFalse), 0, 7,
            b(Op::Pop), b(Op::Constant), 0, b(Op::Print),
            b(Op::Jump), 0, 4,
            b(Op::Pop), b(Op::Constant), 1, b(Op::Print),
            b(Op::Nil), b(Op::Return),
        ]
    );
}

#[test]
fn while_loops_back_to_its_condition() {
    let (gc, function) = compiled("while (false) print 1;");
    let code = &gc.heap.function(function).unwrap().chunk.bytecode;
    assert_eq!(
        code,
        &vec![
            b(Op::False),
            b(Op::JumpIfFalse), 0, 7,
            b(Op::Pop), b(Op::Constant), 0, b(Op::Print),
            b(Op::Loop), 0, 11,
            b(Op::Pop),
            b(Op::Nil), b(Op::Return),
        ]
    );
}

#[test]
fn for_runs_the_increment_behind_the_body() {
    let (gc, function) = compiled("for (var i = 0; i < 1; i = i + 1) print i;");
    let code = &gc.heap.function(function).unwrap().chunk.bytecode;
    assert_eq!(
        code,
        &vec![
            b(Op::Constant), 0,
            b(Op::GetLocal), 1, b(Op::Constant), 1, b(Op::Less),
            b(Op::JumpIfFalse), 0, 21,
            b(Op::Pop),
            b(Op::Jump), 0, 11,
            b(Op::GetLocal), 1, b(Op::Constant), 2, b(Op::Add), b(Op::SetLocal), 1, b(Op::Pop),
            b(Op::Loop), 0, 23,
            b(Op::GetLocal), 1, b(Op::Print),
            b(Op::Loop), 0, 17,
            b(Op::Pop),
            b(Op::Pop),
            b(Op::Nil), b(Op::Return),
        ]
    );
}

#[test]
fn and_and_or_jump_over_the_operand_they_do_not_need() {
    let (gc, function) = compiled("true and false; true or false;");
    let code = &gc.heap.function(function).unwrap().chunk.bytecode;
    assert_eq!(
        code,
        &vec![
            b(Op::True), b(Op::JumpIfFalse), 0, 2, b(Op::Pop), b(Op::False), b(Op::Pop),
            b(Op::True), b(Op::JumpIfFalse), 0, 3, b(Op::Jump), 0, 2, b(Op::Pop), b(Op::False),
            b(Op::Pop),
            b(Op::Nil), b(Op::Return),
        ]
    );
}

#[test]
fn a_closure_is_followed_by_a_pair_for_each_captured_variable() {
    let (gc, function) = compiled(
        "fun outer(a, b) { fun middle() { fun inner() { return a + b; } return inner; } return middle; }",
    );
    let script = gc.heap.function(function).unwrap();
    assert_eq!(
        script.chunk.bytecode,
        vec![b(Op::Closure), 1, b(Op::DefineGlobal), 0, b(Op::Nil), b(Op::Return)]
    );
    let outer = function_constant(&gc, script, 1);
    assert_eq!(outer.arity, 2);
    assert_eq!(outer.upvalue_count, 0);
    assert_eq!(text_of(&gc, Value::Obj(outer.name.unwrap())), "outer");
    assert_eq!(
        outer.chunk.bytecode,
        vec![
            b(Op::Closure), 0, 1, 1, 1, 2,
            b(Op::GetLocal), 3, b(Op::Return),
            b(Op::Nil), b(Op::Return),
        ]
    );
    let middle = function_constant(&gc, outer, 0);
    assert_eq!(middle.upvalue_count, 2);
    assert_eq!(
        middle.chunk.bytecode,
        vec![
            b(Op::Closure), 0, 0, 0, 0, 1,
            b(Op::GetLocal), 1, b(Op::Return),
            b(Op::Nil), b(Op::Return),
        ]
    );
    let inner = function_constant(&gc, middle, 0);
    assert_eq!(inner.upvalue_count, 2);
    assert_eq!(
        inner.chunk.bytecode,
        vec![
            b(Op::GetUpvalue), 0, b(Op::GetUpvalue), 1, b(Op::Add), b(Op::Return),
            b(Op::Nil), b(Op::Return),
        ]
    );
}

#[test]
fn a_captured_local_is_closed_when_its_scope_ends() {
    let (gc, function) = compiled("{ var a = nil; var b = nil; fun f() { return a; } }");
    let script = gc.heap.function(function).unwrap();
    assert_eq!(
        script.chunk.bytecode,
        vec![
            b(Op::Nil), b(Op::Nil), b(Op::Closure), 0, 1, 1,
            b(Op::Pop), b(Op::Pop), b(Op::CloseUpvalue),
            b(Op::Nil), b(Op::Return),
        ]
    );
}

#[test]
fn a_class_installs_its_methods_and_inherits_first() {
    let (gc, function) = compiled("class A { init() {} m() {} } class B < A { m() { super.m(); } }");
    let script = gc.heap.function(function).unwrap();
    assert_eq!(
        script.chunk.bytecode,
        vec![
            b(Op::Class), 0, b(Op::DefineGlobal), 0,
            b(Op::GetGlobal), 1,
            b(Op::Closure), 3, b(Op::Method), 2,
            b(Op::Closure), 5, b(Op::Method), 4,
            b(Op::Pop),
            b(Op::Class), 6, b(Op::DefineGlobal), 6,
            b(Op::GetGlobal), 7,
            b(Op::GetGlobal), 8, b(Op::Inherit),
            b(Op::GetGlobal), 9,
            b(Op::Closure), 11, 1, 1, b(Op::Method), 10,
            b(Op::Pop),
            b(Op::CloseUpvalue),
            b(Op::Nil), b(Op::Return),
        ]
    );
    let init = function_constant(&gc, script, 3);
    assert_eq!(init.chunk.bytecode, vec![b(Op::GetLocal), 0, b(Op::Return)]);
    let method = function_constant(&gc, script, 11);
    assert_eq!(method.upvalue_count, 1);
    assert_eq!(
        method.chunk.bytecode,
        vec![
            b(Op::GetLocal), 0, b(Op::GetUpvalue), 0, b(Op::SuperInvoke), 0, 0, b(Op::Pop),
            b(Op::Nil), b(Op::Return),
        ]
    );
}

#[test]
fn calls_properties_and_invocations() {
    let (gc, function) = compiled("a(1, 2); a.b; a.b = 3; a.b(4);");
    let code = &gc.heap.function(function).unwrap().chunk.bytecode;
    assert_eq!(
        code,
        &vec![
            b(Op::GetGlobal), 0, b(Op::Constant), 1, b(Op::Constant), 2, b(Op::Call), 2, b(Op::Pop),
            b(Op::GetGlobal), 3, b(Op::GetProperty), 4, b(Op::Pop),
            b(Op::GetGlobal), 5, b(Op::Constant), 7, b(Op::SetProperty), 6, b(Op::Pop),
            b(Op::GetGlobal), 8, b(Op::Constant), 10, b(Op::Invoke), 9, 1, b(Op::Pop),
            b(Op::Nil), b(Op::Return),
        ]
    );
}

#[test]
fn string_literals_lose_their_quotes_and_are_interned() {
    let (gc, function) = compiled("\"text\"; \"text\"; \"\";");
    let script = gc.heap.function(function).unwrap();
    assert_eq!(text_of(&gc, script.chunk.constants[0]), "text");
    assert_eq!(script.chunk.constants[0], script.chunk.constants[1]);
    assert_eq!(text_of(&gc, script.chunk.constants[2]), "");
}

#[test]
fn lines_follow_the_tokens() {
    let (gc, function) = compiled("print\n1\n;\n\nprint 2;");
    let script = gc.heap.function(function).unwrap();
    assert_eq!(script.chunk.lines, vec![2, 2, 3, 5, 5, 5, 5, 5]);
}

#[test]
fn the_257th_constant_is_one_too_many() {
    let mut source = String::new();
    for i in 0..256 {
        source.push_str(&format!("{i};"));
    }
    assert_eq!(errors_of(&source), Vec::<String>::new());
    source.push_str("256;");
    assert_eq!(errors_of(&source), vec!["[line 1] Error at '256': Too many constants in one chunk."]);
}

#[test]
fn the_257th_local_is_one_too_many() {
    let mut source = String::from("{");
    for i in 0..255 {
        source.push_str(&format!("var v{i};"));
    }
    source.push('}');
    assert_eq!(errors_of(&source), Vec::<String>::new());
    source.pop();
    source.push_str("var last;}");
    assert_eq!(messages_of(&source), vec!["Too many local variables in function."]);
}

#[test]
fn the_257th_upvalue_is_one_too_many() {
    let mut source = String::from("fun outer() {");
    for i in 0..200 {
        source.push_str(&format!("var a{i};"));
    }
    source.push_str("fun middle() {");
    for i in 0..200 {
        source.push_str(&format!("var b{i};"));
    }
    source.push_str("fun inner() {");
    for i in 0..200 {
        source.push_str(&format!("a{i};"));
    }
    for i in 0..56 {
        source.push_str(&format!("b{i};"));
    }
    let mut ok = source.clone();
    ok.push_str("}}}");
    assert_eq!(errors_of(&ok), Vec::<String>::new());
    source.push_str("b56;}}}");
    assert_eq!(messages_of(&source), vec!["Too many closure variables in function."]);
}

#[test]
fn at_most_255_arguments_and_parameters() {
    let args = |n: usize| (0..n).map(|_| "nil").collect::<Vec<_>>().join(",");
    assert_eq!(errors_of(&format!("f({});", args(255))), Vec::<String>::new());
    assert_eq!(messages_of(&format!("f({});", args(256))), vec!["Can't have more than 255 arguments."]);
    let params = |n: usize| (0..n).map(|i| format!("p{i}")).collect::<Vec<_>>().join(",");
    assert_eq!(errors_of(&format!("fun f({}) {{}}", params(255))), Vec::<String>::new());
    assert_eq!(
        messages_of(&format!("fun f({}) {{}}", params(256))),
        vec!["Can't have more than 255 parameters."]
    );
}

#[test]
fn jumps_and_loops_reach_no_further_than_two_bytes_say() {
    let body = |n: usize| "nil;".repeat(n);
    assert_eq!(errors_of(&format!("if (true) {{ {} }}", body(32000))), Vec::<String>::new());
    assert_eq!(
        messages_of(&format!("if (true) {{ {} }}", body(33000))),
        vec!["Too much code to jump over."]
    );
    assert_eq!(
        messages_of(&format!("while (true) {{ {} }}", body(33000))),
        vec!["Loop body too large."]
    );
}

#[test]
fn a_name_can_be_declared_once_in_a_scope() {
    assert_eq!(
        errors_of("{ var a; var a; }"),
        vec!["[line 1] Error at 'a': Variable a already defined in this scope."]
    );
    assert_eq!(errors_of("{ var a; { var a; } }"), Vec::<String>::new());
    assert_eq!(errors_of("var a; var a;"), Vec::<String>::new());
}

#[test]
fn what_is_expected_is_said() {
    for (source, message) in [
        ("(1;", "Expect ')' after expression."),
        ("{ 1;", "Expect '}' after block."),
        ("var;", "Expect variable name."),
        ("var a = 1", "Expect ';' after variable declaration."),
        ("1", "Expect ';' after expression."),
        ("fun () {}", "Expect function name."),
        ("fun f {}", "Expect '(' after function name."),
        ("fun f(1) {}", "Expect parameter name."),
        ("fun f(a {}", "Expect ')' after parameters."),
        ("fun f() 1;", "Expect '{' before function body."),
        ("class {}", "Expect class name."),
        ("class A < {}", "Expect superclass name."),
        ("class A 1", "Expect '{' before class body."),
        ("class A { 1 }", "Expect method name."),
        ("class A { m() {} ", "Expect '}' after class body."),
        ("if 1", "Expect '(' after 'if'."),
        ("if (1 print 2;", "Expect ')' after condition."),
        ("while 1", "Expect '(' after 'while'."),
        ("for 1", "Expect '(' after 'for'."),
        ("for (;1 2) 3;", "Expect ';' after loop condition."),
        ("for (;;1 {}", "Expect ')' after for clauses."),
        ("f(1 2);", "Expect ')' after arguments."),
        ("a.1;", "Expect property name after '.'."),
        ("fun f() { return 1 }", "Expect ';' after return value."),
        ("class A < B { m() { super; } }", "Expect '.' after 'super'."),
        ("class A < B { m() { super.1; } }", "Expect superclass method name."),
        ("print", "Expect expression."),
    ] {
        let messages = messages_of(source);
        assert_eq!(messages.first().map(|m| m.as_str()), Some(message), "{source}");
    }
}

#[test]
fn tokens_that_cannot_be_read_are_reported_with_their_own_message() {
    assert_eq!(errors_of("print @;"), vec![
        "[line 1] Error: Unexpected character.",
        "[line 1] Error at ';': Expect expression.",
    ]);
    assert_eq!(errors_of("print \"open;"), vec![
        "[line 1] Error: Unterminated string.",
        "[line 1] Error at end: Expect expression.",
    ]);
}

#[test]
fn after_an_error_the_compiler_goes_on_at_the_next_statement() {
    assert_eq!(
        errors_of("var a = ;\nvar b = 1;\nprint ) + 2; print 3 3;\nfun () {}\nclass 1 {}"),
        vec![
            "[line 1] Error at ';': Expect expression.",
            "[line 3] Error at ')': Expect expression.",
            "[line 3] Error at '3': Expect ';' after value.",
            "[line 4] Error at '(': Expect function name.",
            "[line 5] Error at '1': Expect class name.",
        ]
    );
}

#[test]
fn an_error_names_the_line_and_the_token() {
    let token = Token { kind: TokenKind::Identifier, text: b"name".to_vec(), line: 12 };
    assert_eq!(
        String::from_utf8(error_at(&token, "Oops.").text()).unwrap(),
        "[line 12] Error at 'name': Oops."
    );
    let end = Token { kind: TokenKind::Eof, text: Vec::new(), line: 3 };
    assert_eq!(String::from_utf8(error_at(&end, "Oops.").text()).unwrap(), "[line 3] Error at end: Oops.");
    let unread = Token { kind: TokenKind::Error, text: b"Bad.".to_vec(), line: 4 };
    assert_eq!(String::from_utf8(error_at(&unread, "Oops.").text()).unwrap(), "[line 4] Error: Oops.");
    let made_up = Token::synthetic("this");
    assert_eq!(made_up.text, b"this".to_vec());
    assert_eq!(made_up.to_static().text, b"this".to_vec());
}

#[test]
fn the_parser_looks_one_token_ahead() {
    let mut errors = Vec::new();
    let mut parser = Parser::new("var @ x = \"s\";", &mut errors);
    assert_eq!(parser.previous.kind, TokenKind::Sof);
    assert_eq!(parser.current.kind, TokenKind::Var);
    assert!(parser.check(TokenKind::Var));
    assert!(parser.check_eat(TokenKind::Identifier, &mut errors).is_none());
    assert_eq!(parser.check_eat(TokenKind::Var, &mut errors).unwrap().text, b"x".to_vec());
    assert_eq!(parser.previous.kind, TokenKind::Var);
    assert_eq!(parser.current.text, b"x".to_vec());
    assert_eq!(errors.len(), 1);
    assert_eq!(String::from_utf8(errors[0].text()).unwrap(), "[line 1] Error: Unexpected character.");
    assert!(parser.consume(TokenKind::Identifier, "Expect a name.", &mut errors).is_ok());
    assert!(parser.consume(TokenKind::Semicolon, "Expect ';'.", &mut errors).is_err());
    assert_eq!(String::from_utf8(errors[1].text()).unwrap(), "[line 1] Error at '=': Expect ';'.");
    assert_eq!(String::from_utf8(parser.error("Here.").text()).unwrap(), "[line 1] Error at 'x': Here.");
    assert_eq!(
        String::from_utf8(parser.error_at_current("There.").text()).unwrap(),
        "[line 1] Error at '=': There."
    );
    parser.advance(&mut errors);
    parser.advance(&mut errors);
    parser.advance(&mut errors);
    assert_eq!(parser.current.kind, TokenKind::Eof);
    parser.advance(&mut errors);
    assert_eq!(parser.previous.kind, TokenKind::Eof);
    assert_eq!(parser.current.kind, TokenKind::Eof);
}

#[test]
fn compiling_under_stress_keeps_what_is_pinned_and_what_is_under_construction() {
    let mut gc = Gc::new();
    let pinned = gc.place_string(&b"kept".to_vec());
    gc.place_string(&b"dropped".to_vec());
    gc.stress = true;
    let (gc, result) = compile(
        "fun f(a) { fun g() { return a + \"x\" + \"y\"; } return g; } var s = \"long\" + \"er\";",
        gc,
        vec![pinned],
        number_of,
    );
    let script = gc.heap.function(result.ok().unwrap()).unwrap();
    assert!(gc.heap.get(pinned).is_some());
    assert_eq!(gc.heap.lookup_string(&b"dropped".to_vec()), None);
    let f = function_constant(&gc, script, 1);
    let g = function_constant(&gc, f, 0);
    assert_eq!(text_of(&gc, g.chunk.constants[0]), "x");
    assert_eq!(text_of(&gc, g.chunk.constants[1]), "y");
    assert_eq!(text_of(&gc, Value::Obj(g.name.unwrap())), "g");
    assert_eq!(text_of(&gc, script.chunk.constants[3]), "long");
}

fn instruction_starts(function: &ObjFunction) -> Vec<usize> {
    let code = &function.chunk.bytecode;
    let mut starts = Vec::new();
    let mut at = 0;
    while at < code.len() {
        starts.push(at);
        let op = Op::from_byte(code[at]).unwrap();
        at += match op {
            Op::Closure => match function.chunk.constants[code[at + 1] as usize] {
                Value::Obj(_) => 2,
                other => panic!("no function: {:?}", other),
            },
            Op::Jump | Op::JumpIfFalse | Op::Loop | Op::Invoke | Op::SuperInvoke => 3,
            Op::Constant | Op::GetLocal | Op::SetLocal | Op::GetGlobal | Op::DefineGlobal
            | Op::SetGlobal | Op::GetUpvalue | Op::SetUpvalue | Op::GetProperty | Op::SetProperty
            | Op::GetSuper | Op::Call | Op::Class | Op::Method => 2,
            _ => 1,
        };
    }
    assert_eq!(at, code.len());
    starts
}

#[test]
fn every_jump_leads_to_the_start_of_an_instruction() {
    let (gc, function) = compiled(
        "var i = 0; while (i < 3) { if (i == 1 and true or false) print i; else print -i; \
         for (var j = 0; j < i; j = j + 1) { if (j > 1) print j; } i = i + 1; }",
    );
    let function = gc.heap.function(function).unwrap();
    let code = &function.chunk.bytecode;
    let starts = instruction_starts(function);
    let mut jumps = 0;
    for &start in &starts {
        let distance = || (code[start + 1] as usize) * 256 + code[start + 2] as usize;
        let target = match Op::from_byte(code[start]).unwrap() {
            Op::Jump | Op::JumpIfFalse => start + 3 + distance(),
            Op::Loop => start + 3 - distance(),
            _ => continue,
        };
        jumps += 1;
        assert!(starts.contains(&target), "the jump at {} leads to {}", start, target);
    }
    assert_eq!(jumps, 13);
    assert_eq!(Op::from_byte(code[*starts.last().unwrap()]), Some(Op::Return));
}

#[test]
fn blanks_and_comments_alone_compile_to_the_return_of_nil() {
    let (gc, function) = compiled("  \t\r\n// nothing here\n\n   // nor here");
    let script = gc.heap.function(function).unwrap();
    assert_eq!(script.chunk.bytecode, vec![b(Op::Nil), b(Op::Return)]);
    assert!(script.chunk.constants.is_empty());
}

#[test]
fn a_token_that_cannot_be_read_fails_the_compilation_wherever_it_stands() {
    assert!(!errors_of("@").is_empty());
    assert!(!errors_of("print 1; var a = 2; print a # 3;").is_empty());
    assert!(!errors_of("var a = ; print \"no end").is_empty());
    assert_eq!(errors_of("fun f() { return 1; }\n$"), vec!["[line 2] Error: Unexpected character."]);
}

fn shape(gc: &Gc, function: &ObjFunction) -> String {
    let mut out = format!(
        "{:?}/{}/{}/{:?}/{:?}[",
        function.name.map(|name| text_of(gc, Value::Obj(name))),
        function.arity,
        function.upvalue_count,
        function.chunk.bytecode,
        function.chunk.lines,
    );
    for constant in &function.chunk.constants {
        match constant {
            Value::Obj(r) => match gc.heap.function(*r) {
                Some(inner) => out.push_str(&shape(gc, inner)),
                None => out.push_str(&text_of(gc, *constant)),
            },
            other => out.push_str(&format!("{:?}", other)),
        }
        out.push(',');
    }
    out.push(']');
    out
}

#[test]
fn collecting_at_every_allocation_changes_nothing_of_what_is_compiled() {
    let source = "var greeting = \"hi\";\nfun outer(a) {\n  var n = 1.5;\n  fun inner(b) { return a + b + n; }\n  \
                  return inner;\n}\nclass Point { init(x) { this.x = x; } twice() { return this.x * 2; } }\n\
                  print outer(\"x\")(greeting);";
    let (calm, script) = compiled(source);
    let mut eager = Gc::new();
    eager.stress = true;
    let (eager, result) = compile(source, eager, Vec::new(), number_of);
    let stressed = result.ok().unwrap();
    assert_eq!(
        shape(&calm, calm.heap.function(script).unwrap()),
        shape(&eager, eager.heap.function(stressed).unwrap())
    );
}

#[test]
fn a_new_parser_has_read_the_first_token() {
    let mut errors = Vec::new();
    let parser = Parser::new("", &mut errors);
    assert_eq!(parser.current.kind, TokenKind::Eof);
    assert_eq!(parser.current.line, 1);
    assert_eq!(parser.previous.kind, TokenKind::Sof);
    assert!(errors.is_empty());
    let parser = Parser::new("\n@ $ print", &mut errors);
    assert_eq!(parser.current.kind, TokenKind::Print);
    assert_eq!(parser.current.line, 2);
    assert_eq!(errors.len(), 2);
}
