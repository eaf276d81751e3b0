use rlox::value::Value;
use rlox::vm::signal::ArithmeticOp;
use rlox::vm::signal::Signal;
use rlox::vm::Vm;

fn number_of(text: &Vec<u8>) -> u64 {
    std::str::from_utf8(text).unwrap().parse::<f64>().unwrap().to_bits()
}

fn combine(op: ArithmeticOp, left: u64, right: u64) -> u64 {
    let a = f64::from_bits(left);
    let b = f64::from_bits(right);
    let result = match op {
        ArithmeticOp::Add => a + b,
        ArithmeticOp::Subtract => a - b,
        ArithmeticOp::Multiply => a * b,
        ArithmeticOp::Divide => a / b,
    };
    result.to_bits()
}

struct Outcome {
    printed: Vec<String>,
    compile_errors: Vec<String>,
    runtime_error: Option<String>,
    trace: Vec<String>,
}

fn run_on(vm: &mut Vm<64, 256>, source: &str) -> Outcome {
    let mut outcome =
        Outcome { printed: Vec::new(), compile_errors: Vec::new(), runtime_error: None, trace: Vec::new() };
    let mut signal = match vm.interpret(source, number_of, 1000) {
        Ok(signal) => signal,
        Err(errors) => {
            for error in errors.iter() {
                outcome.compile_errors.push(String::from_utf8(error.text()).unwrap());
            }
            return outcome;
        }
    };
    loop {
        match signal {
            Signal::Done => return outcome,
            Signal::Print(text) => outcome.printed.push(String::from_utf8(text).unwrap()),
            Signal::PrintNumber(bits) => outcome.printed.push(format!("{}", f64::from_bits(bits))),
            Signal::Arithmetic { op, left, right } => {
                assert!(vm.resume(Value::Number(combine(op, left, right))).is_none());
            }
            Signal::Native { function, args } => {
                assert_eq!(function, 7);
                assert!(vm.resume(Value::Number((args.len() as f64).to_bits())).is_none());
            }
            Signal::Error(error) => {
                outcome.runtime_error = Some(String::from_utf8(error.kind.message()).unwrap());
                for line in error.trace.iter() {
                    outcome.trace.push(String::from_utf8(line.text()).unwrap());
                }
                return outcome;
            }
            Signal::OutOfFuel => {}
        }
        signal = vm.run(1000);
    }
}

fn run(source: &str) -> Outcome {
    let mut vm: Vm<64, 256> = Vm::new();
    run_on(&mut vm, source)
}

fn prints(source: &str) -> Vec<String> {
    let outcome = run(source);
    assert_eq!(outcome.compile_errors, Vec::<String>::new());
    assert_eq!(outcome.runtime_error, None);
    outcome.printed
}

#[test]
fn arithmetic_follows_precedence() {
    assert_eq!(prints("print 1 + 2 * 3;"), vec!["7"]);
}

#[test]
fn equal_string_literals_are_equal() {
    assert_eq!(prints("var a = \"hi\"; var b = \"hi\"; print a == b;"), vec!["true"]);
}

#[test]
fn a_closure_keeps_its_variable() {
    assert_eq!(
        prints(
            "fun make(x){ fun inc(){ x = x + 1; return x; } return inc; } var f = make(10); print f(); print f();"
        ),
        vec!["11", "12"]
    );
}

#[test]
fn an_initializer_sets_fields_and_methods_read_them() {
    assert_eq!(
        prints(
            "class Greeter { init(n){ this.n = n; } hi(){ print \"hello \" + this.n; } } Greeter(\"world\").hi();"
        ),
        vec!["hello world"]
    );
}

#[test]
fn super_calls_the_method_of_the_superclass() {
    assert_eq!(
        prints(
            "class A { m(){ print \"A\"; } } class B < A { m(){ super.m(); print \"B\"; } } B().m();"
        ),
        vec!["A", "B"]
    );
}

#[test]
fn while_loops_until_the_condition_fails() {
    assert_eq!(prints("var i = 0; while (i < 3) { print i; i = i + 1; }"), vec!["0", "1", "2"]);
}

#[test]
fn a_local_cannot_be_read_in_its_own_initializer() {
    let outcome = run("{ var a = a; }");
    assert_eq!(
        outcome.compile_errors,
        vec!["[line 1] Error at 'a': Can't read local variable in its own initializer."]
    );
    assert!(outcome.printed.is_empty());
}

#[test]
fn adding_a_number_and_a_string_is_an_error() {
    let outcome = run("1 + \"a\";");
    assert_eq!(
        outcome.runtime_error,
        Some("Operands must be two numbers or two strings.".to_string())
    );
    assert_eq!(outcome.trace, vec!["[line 1] in script"]);
}

#[test]
fn a_call_with_too_many_arguments_is_an_error() {
    let outcome = run("fun f(){ return; } f(1);");
    assert_eq!(outcome.runtime_error, Some("Expected 0 arguments but got 1.".to_string()));
}

#[test]
fn reading_a_property_that_is_not_there_is_an_error() {
    let outcome = run("class C {} var x = C(); print x.y;");
    assert_eq!(outcome.runtime_error, Some("Undefined property 'y'.".to_string()));
}

#[test]
fn for_loops_with_all_three_clauses() {
    assert_eq!(
        prints("for (var i = 0; i < 3; i = i + 1) { print i * 2; }"),
        vec!["0", "2", "4"]
    );
}

#[test]
fn and_and_or_hand_back_the_operand_that_decided() {
    assert_eq!(
        prints("print nil or \"yes\"; print false and 1; print 1 and 2; print nil or false;"),
        vec!["yes", "false", "2", "false"]
    );
}

#[test]
fn if_takes_the_branch_the_condition_picks() {
    assert_eq!(
        prints("if (1 < 2) print \"then\"; else print \"else\"; if (nil) print \"no\"; else print \"other\";"),
        vec!["then", "other"]
    );
}

#[test]
fn zero_and_the_empty_string_are_truthy() {
    assert_eq!(prints("if (0) print \"zero\"; if (\"\") print \"empty\";"), vec!["zero", "empty"]);
}

#[test]
fn values_print_in_their_own_way() {
    assert_eq!(
        prints(
            "fun f(){} class K { m(){} } print nil; print true; print 1.5; print \"s\"; print f; print K; print K(); print K().m;"
        ),
        vec!["nil", "true", "1.5", "s", "<fn f>", "K", "K instance", "<fn m>"]
    );
}

#[test]
fn numbers_compare_as_numbers() {
    assert_eq!(
        prints("print 1 < 2; print 2 <= 2; print 3 > 4; print 4 >= 5; print 1 == 1; print 1 != 1; print -0 == 0; print (0/0) == (0/0);"),
        vec!["true", "true", "false", "false", "true", "false", "true", "false"]
    );
}

#[test]
fn division_by_zero_is_no_error() {
    assert_eq!(prints("print 1 / 0; print -1 / 0;"), vec!["inf", "-inf"]);
}

#[test]
fn globals_persist_between_programs() {
    let mut vm: Vm<64, 256> = Vm::new();
    let first = run_on(&mut vm, "var kept = \"still here\";");
    assert_eq!(first.runtime_error, None);
    let second = run_on(&mut vm, "print kept;");
    assert_eq!(second.printed, vec!["still here"]);
}

#[test]
fn an_undefined_global_is_an_error_to_read_and_to_assign() {
    assert_eq!(run("print missing;").runtime_error, Some("Undefined variable 'missing'.".to_string()));
    assert_eq!(run("missing = 1;").runtime_error, Some("Undefined variable 'missing'.".to_string()));
}

#[test]
fn only_numbers_can_be_negated_or_ordered() {
    assert_eq!(run("-\"a\";").runtime_error, Some("Operand must be a number.".to_string()));
    assert_eq!(run("1 < \"a\";").runtime_error, Some("Operands must be numbers.".to_string()));
    assert_eq!(run("\"a\" * 2;").runtime_error, Some("Operands must be numbers.".to_string()));
}

#[test]
fn only_functions_and_classes_can_be_called() {
    assert_eq!(run("\"text\"();").runtime_error, Some("Can only call functions and classes.".to_string()));
    assert_eq!(run("nil();").runtime_error, Some("Can only call functions and classes.".to_string()));
}

#[test]
fn only_instances_have_properties_and_fields() {
    assert_eq!(run("print 1.x;").runtime_error, Some("Only instances have properties.".to_string()));
    assert_eq!(run("var a = 1; a.x = 2;").runtime_error, Some("Only instances have fields.".to_string()));
    assert_eq!(run("var a = 1; a.x();").runtime_error, Some("Only instances have methods.".to_string()));
}

#[test]
fn a_superclass_must_be_a_class() {
    assert_eq!(run("var x = 1; class A < x {}").runtime_error, Some("Superclass must be a class.".to_string()));
}

#[test]
fn a_class_without_initializer_takes_no_arguments() {
    assert_eq!(run("class C {} C(1, 2);").runtime_error, Some("Expected 0 arguments but got 2.".to_string()));
}

#[test]
fn runaway_recursion_overflows_the_frames() {
    let outcome = run("fun f(){ f(); } f();");
    assert_eq!(outcome.runtime_error, Some("Stack overflow.".to_string()));
    assert_eq!(outcome.trace.len(), 64);
    assert_eq!(outcome.trace[0], "[line 1] in f()");
    assert_eq!(outcome.trace[63], "[line 1] in script");
}

#[test]
fn the_trace_names_each_call_with_its_line() {
    let outcome = run("fun inner() {\n  return 1 + nil;\n}\nfun outer() {\n  return inner();\n}\nouter();");
    assert_eq!(outcome.runtime_error, Some("Operands must be two numbers or two strings.".to_string()));
    assert_eq!(outcome.trace, vec!["[line 2] in inner()", "[line 5] in outer()", "[line 7] in script"]);
}

#[test]
fn several_compile_errors_are_reported_in_one_run() {
    let outcome = run("var 1 = 2;\nprint ;\nvar ok = 3;\nprint +;");
    assert_eq!(
        outcome.compile_errors,
        vec![
            "[line 1] Error at '1': Expect variable name.",
            "[line 2] Error at ';': Expect expression.",
            "[line 4] Error at '+': Expect expression.",
        ]
    );
    assert!(outcome.printed.is_empty());
}

#[test]
fn errors_at_the_end_say_so() {
    let outcome = run("print 1");
    assert_eq!(outcome.compile_errors, vec!["[line 1] Error at end: Expect ';' after value."]);
}

#[test]
fn class_context_errors() {
    assert_eq!(
        run("print this;").compile_errors,
        vec!["[line 1] Error at 'this': Can't use 'this' outside of a class."]
    );
    assert_eq!(
        run("super.m();").compile_errors,
        vec!["[line 1] Error at 'super': Can't use 'super' outside of a class."]
    );
    assert_eq!(
        run("class A { m(){ super.m(); } }").compile_errors,
        vec!["[line 1] Error at 'super': Can't use 'super' in a class with no superclass."]
    );
    assert_eq!(
        run("class A { init(){ return 1; } }").compile_errors,
        vec!["[line 1] Error at 'return': Can't return a value from an initializer."]
    );
    assert_eq!(
        run("class A < A {}").compile_errors,
        vec!["[line 1] Error at 'A': A class can't inherit from itself."]
    );
    assert_eq!(
        run("a + b = c;").compile_errors,
        vec!["[line 1] Error at '=': Invalid assignment target."]
    );
    assert_eq!(
        run("return 1;").compile_errors,
        vec!["[line 1] Error at 'return': Can't return from top-level code."]
    );
}

#[test]
fn an_initializer_hands_back_the_instance() {
    assert_eq!(
        prints("class P { init(x){ this.x = x; return; } } var p = P(4); print p.x; print p.init(5).x;"),
        vec!["4", "5"]
    );
}

#[test]
fn bound_methods_remember_their_receiver() {
    assert_eq!(
        prints("class C { init(n){ this.n = n; } get(){ return this.n; } } var m = C(9).get; print m();"),
        vec!["9"]
    );
}

#[test]
fn a_field_that_holds_a_function_can_be_invoked() {
    assert_eq!(
        prints("fun seven(){ return 7; } class C {} var c = C(); c.f = seven; print c.f();"),
        vec!["7"]
    );
}

#[test]
fn inherited_methods_can_be_overridden() {
    assert_eq!(
        prints(
            "class A { a(){ return \"a\"; } b(){ return \"b\"; } } class B < A { b(){ return \"B\"; } } var x = B(); print x.a(); print x.b();"
        ),
        vec!["a", "B"]
    );
}

#[test]
fn closures_share_one_variable() {
    assert_eq!(
        prints(
            "var get; var set; fun pair(){ var v = 1; fun g(){ return v; } fun s(n){ v = n; } get = g; set = s; } pair(); set(5); print get();"
        ),
        vec!["5"]
    );
}

#[test]
fn a_block_closes_the_variables_it_leaves() {
    assert_eq!(
        prints("var f; { var a = \"kept\"; fun g(){ print a; } f = g; } f();"),
        vec!["kept"]
    );
}

#[test]
fn strings_join_and_stay_interned() {
    assert_eq!(
        prints("var a = \"ab\" + \"cd\"; var b = \"a\" + \"bcd\"; print a; print a == b; print a == \"abcd\";"),
        vec!["abcd", "true", "true"]
    );
}

#[test]
fn fuel_only_pauses_the_machine() {
    assert_eq!(
        prints("var i = 0; var sum = 0; while (i < 400) { sum = sum + i; i = i + 1; } print sum;"),
        vec!["79800"]
    );
}
