use rlox::eval::{eval, Arithmetic, Relation, Request};
use rlox::grammar::SyntaxError;
use rlox::interpreter::Interpreter;
use rlox::machine::{Action, Event, Output};
use rlox::resolver::{ResolveError, Resolver};
use rlox::scanner::{Scanner, Token};
use rlox::syntax::{Declaration, Parser, Program, Stmt};
use rlox::types::{Object, RuntimeError};

fn scan(source: &str) -> Vec<Token> {
    Scanner::new(source).scan_tokens().collect().into_iter().map(|t| t.unwrap()).collect()
}

fn parse(source: &str) -> Program {
    Parser::new(scan(source)).parse().expect("the source parses")
}

fn answer(request: Request) -> Event {
    match request {
        Request::Literal(digits) => Event::Number(digits.parse::<f64>().unwrap().to_bits()),
        Request::Negate(n) => Event::Number((-f64::from_bits(n)).to_bits()),
        Request::Arithmetic(op, a, b) => {
            let (a, b) = (f64::from_bits(a), f64::from_bits(b));
            Event::Number(
                match op {
                    Arithmetic::Add => a + b,
                    Arithmetic::Subtract => a - b,
                    Arithmetic::Multiply => a * b,
                    Arithmetic::Divide => a / b,
                }
                .to_bits(),
            )
        }
        Request::Relation(op, a, b) => {
            let (a, b) = (f64::from_bits(a), f64::from_bits(b));
            Event::Boolean(match op {
                Relation::Less => a < b,
                Relation::LessEqual => a <= b,
                Relation::Greater => a > b,
                Relation::GreaterEqual => a >= b,
                Relation::Equal => a == b,
            })
        }
        Request::Clock => Event::Number(1234.5f64.to_bits()),
    }
}

struct Run {
    lines: Vec<String>,
    end: Result<Object, RuntimeError>,
    text: Option<String>,
}

fn drive<'a>(interpreter: &mut Interpreter<'a>) -> Run {
    let mut lines = Vec::new();
    let mut event = Event::Resume;
    for _ in 0..1_000_000 {
        let action = interpreter.step(event);
        event = Event::Resume;
        match action {
            Action::Continue => {}
            Action::Print(Output::Text(id)) => lines.push(interpreter.heap.text(id).clone()),
            Action::Print(Output::Number(n)) => lines.push(format!("{}", f64::from_bits(n))),
            Action::Ask(request) => event = answer(request),
            Action::Finished(value) => {
                let text = match value {
                    Object::String(id) => Some(interpreter.heap.text(id).clone()),
                    _ => None,
                };
                return Run { lines, end: Ok(value), text };
            }
            Action::Fault(e) => return Run { lines, end: Err(e), text: None },
        }
    }
    panic!("the program did not finish");
}

fn run(source: &str) -> Run {
    let program = parse(source);
    let resolver = Resolver::new(Interpreter::new());
    let mut interpreter = resolver.run(&program).expect("the program resolves");
    interpreter.interpret(&program);
    drive(&mut interpreter)
}

fn prints(source: &str) -> Vec<String> {
    let run = run(source);
    assert_eq!(run.end.map(|_| ()), Ok(()), "the run failed after printing {:?}", run.lines);
    run.lines
}

fn fails(source: &str) -> RuntimeError {
    run(source).end.expect_err("the run should fail")
}

fn resolve(source: &str) -> Result<(), ResolveError> {
    let program = parse(source);
    Resolver::new(Interpreter::new()).run(&program).map(|_| ())
}

fn number(x: f64) -> Object {
    Object::Number(x.to_bits())
}

fn lines(expected: &[&str]) -> Vec<String> {
    expected.iter().map(|s| s.to_string()).collect()
}

enum Value {
    Plain(Object),
    Text(String),
}

fn evaluate(source: &str) -> Vec<Value> {
    let Program::Declarations(decls) = parse(source);
    let mut values = Vec::new();
    for decl in &decls {
        match decl {
            Declaration::Statement(Stmt::Expr(expr)) => {
                let mut interpreter = Interpreter::new();
                let mut action = eval(&mut interpreter, expr, 1000);
                let value = loop {
                    match action {
                        Action::Ask(request) => action = interpreter.run(answer(request), 1000),
                        Action::Finished(value) => break value,
                        other => panic!("unexpected {:?}", other),
                    }
                };
                values.push(match value {
                    Object::String(id) => Value::Text(interpreter.heap.text(id).clone()),
                    other => Value::Plain(other),
                });
            }
            _ => panic!("test can only include expressions"),
        }
    }
    values
}

#[test]
fn test_expressions() {
    let cases = [
        ("1+1;", number(2.)),
        ("(1+3)*5;", number(20.)),
        ("20 == 14;", Object::Boolean(false)),
        ("20 != 14;", Object::Boolean(true)),
        (r#""hello" == "hello";"#, Object::Boolean(true)),
        (r#""hello" == "hi";"#, Object::Boolean(false)),
    ];
    for (expr_str, expected) in cases {
        for result in evaluate(expr_str) {
            match result {
                Value::Plain(result) => assert_eq!(expected, result),
                Value::Text(text) => panic!("unexpected text {:?}", text),
            }
        }
        assert_eq!(evaluate(expr_str).len(), 1);
    }
    let results = evaluate(r#""foo" + "bar";"#);
    assert_eq!(results.len(), 1);
    match &results[0] {
        Value::Text(text) => assert_eq!("foobar", text),
        Value::Plain(other) => panic!("unexpected {:?}", other),
    }
}

#[test]
fn program_ends_with_the_value_of_its_last_declaration() {
    let cases = [
        ("1+1;", number(2.)),
        ("(1+3)*5;", number(20.)),
        ("20 == 14;", Object::Boolean(false)),
        ("var a = 1;", Object::Null),
        ("1; print 2;", Object::Null),
        ("", Object::Null),
    ];
    for (source, expected) in cases {
        let run = run(source);
        assert_eq!(Ok(expected), run.end, "{}", source);
    }
    let run = run(r#""foo" + "bar";"#);
    assert!(matches!(run.end, Ok(Object::String(_))));
    assert_eq!(run.text, Some("foobar".to_string()));
}

#[test]
fn arithmetic_prints_in_natural_decimal_form() {
    assert_eq!(prints("print 1 + 1;"), lines(&["2"]));
    assert_eq!(prints("print (1+3)*5;"), lines(&["20"]));
    assert_eq!(prints("print 7 / 2;"), lines(&["3.5"]));
    assert_eq!(prints("print 2 - 5;"), lines(&["-3"]));
    assert_eq!(prints("print -(1.5);"), lines(&["-1.5"]));
}

#[test]
fn mixed_addition_is_a_type_mismatch() {
    assert_eq!(fails(r#"1 + "a";"#), RuntimeError::TypeMismatch);
    assert_eq!(fails(r#""a" + 1;"#), RuntimeError::TypeMismatch);
    assert_eq!(fails(r#""a" - "b";"#), RuntimeError::TypeMismatch);
    assert_eq!(fails("true < false;"), RuntimeError::TypeMismatch);
    assert_eq!(fails(r#"-"a";"#), RuntimeError::TypeMismatch);
}

#[test]
fn comparisons_yield_booleans() {
    assert_eq!(
        prints("print 1 < 2; print 2 <= 2; print 1 > 2; print 2 >= 3; print 1 == 1; print 1 != 1;"),
        lines(&["true", "true", "false", "false", "true", "false"])
    );
}

#[test]
fn values_of_different_kinds_are_unequal() {
    assert_eq!(
        prints(r#"print 1 == "1"; print nil == false; print "a" != 1; print nil == nil; print true == true;"#),
        lines(&["false", "false", "true", "true", "true"])
    );
}

#[test]
fn equality_of_functions_is_unsupported() {
    assert_eq!(fails("fun f() {} f == f;"), RuntimeError::UnsupportedEquality);
    assert_eq!(fails("class A {} A != A;"), RuntimeError::UnsupportedEquality);
    assert_eq!(fails("class A {} var a = A(); a == a;"), RuntimeError::UnsupportedEquality);
    assert_eq!(prints("fun f() {} class A {} print f == A;"), lines(&["false"]));
}

#[test]
fn logical_operators_yield_an_operand() {
    assert_eq!(
        prints(r#"print true or 1; print false or 1; print true and "x"; print false and 1;"#),
        lines(&["true", "1", "x", "false"])
    );
    assert_eq!(fails("1 or true;"), RuntimeError::NonBoolean);
    assert_eq!(fails("nil and true;"), RuntimeError::NonBoolean);
}

#[test]
fn logical_operators_short_circuit() {
    assert_eq!(
        prints("var a = 1; true or (a = 2); false and (a = 3); print a;"),
        lines(&["1"])
    );
}

#[test]
fn prefix_bang_is_not_evaluated() {
    assert_eq!(fails("!true;"), RuntimeError::UnsupportedOperator);
}

#[test]
fn conditions_must_be_boolean() {
    assert_eq!(fails("if (1) print 1;"), RuntimeError::NonBoolean);
    assert_eq!(fails("while (nil) print 1;"), RuntimeError::NonBoolean);
    assert_eq!(prints("if (1 < 2) print 1; else print 2;"), lines(&["1"]));
    assert_eq!(prints("if (1 > 2) print 1; else print 2;"), lines(&["2"]));
    assert_eq!(prints("if (1 > 2) print 1; print 3;"), lines(&["3"]));
}

#[test]
fn loops_run_while_the_condition_holds() {
    assert_eq!(
        prints("var i = 0; while (i < 3) { print i; i = i + 1; }"),
        lines(&["0", "1", "2"])
    );
    assert_eq!(
        prints("for (var i = 0; i < 3; i = i + 1) print i;"),
        lines(&["0", "1", "2"])
    );
}

#[test]
fn values_print_by_kind() {
    assert_eq!(
        prints(
            r#"fun f(a, b) {} class A { m() {} } var a = A();
               print "text"; print 1.5; print true; print false; print nil;
               print f; print clock; print A; print a; print a.m;"#
        ),
        lines(&[
            "text",
            "1.5",
            "true",
            "false",
            "null",
            "<callable:2>",
            "<callable:0>",
            "<class:A>",
            "<instance:A>",
            "<callable:0>",
        ])
    );
}

#[test]
fn read_reaches_the_declaring_scope_through_any_number_of_blocks() {
    assert_eq!(
        prints("{ var a = 1; { { { a = a + 1; { print a; } } } } print a; }"),
        lines(&["2", "2"])
    );
}

#[test]
fn inner_declaration_shadows_outer_one() {
    assert_eq!(
        prints("{ var a = 1; { var a = 2; print a; } print a; }"),
        lines(&["2", "1"])
    );
    assert_eq!(resolve("{ var a = 1; { var a = 2; } }"), Ok(()));
}

#[test]
fn redeclaration_in_the_same_block_is_a_static_error() {
    assert_eq!(resolve("{ var a = 1; var a = 2; }"), Err(ResolveError::AlreadyDeclared));
    assert_eq!(resolve("fun f(a, a) {}"), Err(ResolveError::AlreadyDeclared));
    assert_eq!(resolve("fun f(a) { var a = 1; }"), Err(ResolveError::AlreadyDeclared));
    assert_eq!(resolve("var a = 1; var a = 2;"), Ok(()));
}

#[test]
fn static_errors_are_told_apart() {
    assert_eq!(resolve("return 1;"), Err(ResolveError::ReturnOutsideFunction));
    assert_eq!(
        resolve("class A { init() { return 1; } }"),
        Err(ResolveError::ReturnFromInitializer)
    );
    assert_eq!(resolve("print this;"), Err(ResolveError::ThisOutsideClass));
    assert_eq!(resolve("fun f() { return this; }"), Err(ResolveError::ThisOutsideClass));
    assert_eq!(resolve("super.m();"), Err(ResolveError::SuperOutsideClass));
    assert_eq!(
        resolve("class A { m() { super.m(); } }"),
        Err(ResolveError::SuperWithoutSuperclass)
    );
    assert_eq!(resolve("class A < A {}"), Err(ResolveError::InheritsFromItself));
    assert_eq!(resolve("{ var a = a; }"), Err(ResolveError::ReadInOwnInitializer));
    assert_eq!(resolve("var a = 1; { var a = a; }"), Err(ResolveError::ReadInOwnInitializer));
    assert_eq!(resolve("class A { m() { return this; } }"), Ok(()));
}

#[test]
fn closure_sees_later_assignments() {
    assert_eq!(
        prints(
            "fun make() { var n = 0; fun inc() { n = n + 1; return n; } return inc; }
             var c = make(); print c(); print c(); var d = make(); print d(); print c();"
        ),
        lines(&["1", "2", "1", "3"])
    );
}

#[test]
fn closure_keeps_the_scope_it_was_declared_in() {
    assert_eq!(
        prints(
            r#"var a = "global";
               { fun show() { print a; } show(); var a = "block"; show(); }"#
        ),
        lines(&["global", "global"])
    );
}

#[test]
fn unresolved_names_are_globals_read_when_used() {
    assert_eq!(
        prints("fun f() { return g; } var g = 1; print f(); g = 2; print f();"),
        lines(&["1", "2"])
    );
}

#[test]
fn undefined_names_fail() {
    assert_eq!(fails("print a;"), RuntimeError::UndefinedVariable);
    assert_eq!(fails("a = 1;"), RuntimeError::UndefinedVariable);
    assert_eq!(fails("class A {} var a = A(); a.x;"), RuntimeError::UndefinedProperty);
}

#[test]
fn assignment_yields_the_value_assigned() {
    assert_eq!(prints("var a = 1; print a = 2; print a;"), lines(&["2", "2"]));
    assert_eq!(
        prints("class A {} var a = A(); print a.x = 3; print a.x;"),
        lines(&["3", "3"])
    );
}

#[test]
fn calls_check_callee_and_arity() {
    assert_eq!(fails("fun f(a) {} f();"), RuntimeError::ArityMismatch);
    assert_eq!(fails("fun f() {} f(1);"), RuntimeError::ArityMismatch);
    assert_eq!(fails("clock(1);"), RuntimeError::ArityMismatch);
    assert_eq!(fails(r#""f"();"#), RuntimeError::NotCallable);
    assert_eq!(fails("nil();"), RuntimeError::NotCallable);
    assert_eq!(fails("class A {} var a = A(); a();"), RuntimeError::NotCallable);
}

#[test]
fn arguments_are_evaluated_before_the_callee_is_checked() {
    let run = run("fun f() { print 1; return 2; } nil(f());");
    assert_eq!(run.lines, lines(&["1"]));
    assert_eq!(run.end, Err(RuntimeError::NotCallable));
}

#[test]
fn arguments_bind_to_parameters_in_order() {
    assert_eq!(
        prints("fun f(a, b, c) { print a; print b; print c; } f(1, 2, 3);"),
        lines(&["1", "2", "3"])
    );
}

#[test]
fn clock_is_answered_by_the_host() {
    assert_eq!(prints("print clock();"), lines(&["1234.5"]));
}

#[test]
fn function_without_return_yields_its_last_value() {
    assert_eq!(prints("fun f() { 1 + 2; } print f();"), lines(&["3"]));
    assert_eq!(prints("fun f() { } print f();"), lines(&["null"]));
    assert_eq!(prints("fun f() { var a = 1; } print f();"), lines(&["null"]));
}

#[test]
fn return_skips_the_rest_at_any_depth() {
    assert_eq!(
        prints(
            "fun f() {
               var i = 0;
               while (true) {
                 { { if (i == 2) { return i; } } }
                 print i;
                 i = i + 1;
               }
               print 99;
             }
             print f(); print 7;"
        ),
        lines(&["0", "1", "2", "7"])
    );
}

#[test]
fn return_restores_the_callers_scope() {
    assert_eq!(
        prints("var a = 1; fun f() { var a = 2; { var a = 3; return a; } } { var a = 4; print f(); print a; }"),
        lines(&["3", "4"])
    );
}

#[test]
fn recursion_works() {
    assert_eq!(
        prints("fun fib(n) { if (n < 2) return n; return fib(n - 1) + fib(n - 2); } print fib(15);"),
        lines(&["610"])
    );
}

#[test]
fn subclass_method_overrides_and_super_reaches_the_superclass() {
    assert_eq!(
        prints(
            r#"class A { greet() { print "A"; } }
               class B < A { greet() { print "B"; super.greet(); } }
               class C < B { }
               class D < C { greet() { print "D"; super.greet(); } }
               B().greet(); C().greet(); D().greet();"#
        ),
        lines(&["B", "A", "B", "A", "D", "B", "A"])
    );
}

#[test]
fn methods_are_inherited() {
    assert_eq!(
        prints(r#"class A { hello() { print "hello"; } } class B < A {} B().hello();"#),
        lines(&["hello"])
    );
}

#[test]
fn field_hides_method_of_the_same_name() {
    assert_eq!(
        prints(
            r#"class A { f() { return "method"; } }
               var a = A(); print a.f(); a.f = "field"; print a.f;
               var b = A(); print b.f();"#
        ),
        lines(&["method", "field", "method"])
    );
}

#[test]
fn class_without_init_takes_no_arguments() {
    assert_eq!(prints("class A {} print A();"), lines(&["<instance:A>"]));
    assert_eq!(fails("class A {} A(1);"), RuntimeError::ArityMismatch);
    assert_eq!(fails("class A {} A(1, 2);"), RuntimeError::ArityMismatch);
}

#[test]
fn initializer_sets_fields_and_fixes_the_arity() {
    assert_eq!(
        prints("class P { init(x, y) { this.x = x; this.y = y; } sum() { return this.x + this.y; } } print P(1, 2).sum();"),
        lines(&["3"])
    );
    assert_eq!(
        fails("class P { init(x, y) { this.x = x; } } P(1);"),
        RuntimeError::ArityMismatch
    );
    assert_eq!(
        prints("class A { init(x) { this.x = x; } } class B < A {} print B(5).x;"),
        lines(&["5"])
    );
}

#[test]
fn calling_init_again_yields_the_instance() {
    assert_eq!(
        prints("class A { init() { this.n = 1; } } var a = A(); print a.init();"),
        lines(&["<instance:A>"])
    );
}

#[test]
fn bound_method_remembers_its_instance() {
    assert_eq!(
        prints(
            r#"class A { init(n) { this.n = n; } get() { return this.n; } }
               var m = A(1).get; var other = A(2); print m(); print other.get();"#
        ),
        lines(&["1", "2"])
    );
}

#[test]
fn instances_are_shared_not_copied() {
    assert_eq!(
        prints("class A {} var a = A(); var b = a; b.x = 1; print a.x;"),
        lines(&["1"])
    );
}

#[test]
fn properties_live_on_instances_only() {
    assert_eq!(fails("var a = 1; a.x;"), RuntimeError::NotAnInstance);
    assert_eq!(fails("var a = 1; a.x = 2;"), RuntimeError::NotAnInstance);
    assert_eq!(fails("class A {} A.x;"), RuntimeError::NotAnInstance);
}

#[test]
fn superclass_must_be_a_class() {
    assert_eq!(fails("var a = 1; class B < a {}"), RuntimeError::SuperclassNotClass);
}

#[test]
fn missing_superclass_method_is_an_undefined_property() {
    assert_eq!(
        fails("class A {} class B < A { m() { super.m(); } } B().m();"),
        RuntimeError::UndefinedProperty
    );
}

#[test]
fn methods_can_refer_to_their_class() {
    assert_eq!(
        prints("class A { make() { return A(); } } print A().make();"),
        lines(&["<instance:A>"])
    );
}

#[test]
fn output_before_a_fault_is_kept() {
    let run = run("print 1; print 2; print nope; print 3;");
    assert_eq!(run.lines, lines(&["1", "2"]));
    assert_eq!(run.end, Err(RuntimeError::UndefinedVariable));
}

#[test]
fn wrong_answer_from_the_host_is_a_fault() {
    let program = parse("1 + 2;");
    let mut interpreter = Resolver::new(Interpreter::new()).run(&program).unwrap();
    interpreter.interpret(&program);
    let mut action = interpreter.step(Event::Resume);
    while matches!(action, Action::Continue) {
        action = interpreter.step(Event::Resume);
    }
    assert!(matches!(action, Action::Ask(Request::Literal(_))));
    let action = interpreter.step(Event::Boolean(true));
    assert!(matches!(action, Action::Fault(RuntimeError::UnexpectedEvent)));
    let again = interpreter.step(Event::Number(0));
    assert!(matches!(again, Action::Fault(RuntimeError::UnexpectedEvent)));
}

#[test]
fn run_stops_when_the_budget_is_spent() {
    let program = parse("var t = 0 < 1; while (t) { }");
    let mut interpreter = Resolver::new(Interpreter::new()).run(&program).unwrap();
    interpreter.interpret(&program);
    let mut event = Event::Resume;
    let mut spent = 0;
    loop {
        match interpreter.run(event, 100) {
            Action::Ask(request) => event = answer(request),
            Action::Continue => {
                event = Event::Resume;
                spent += 1;
                if spent == 50 {
                    break;
                }
            }
            other => panic!("unexpected {:?}", other),
        }
    }
}

#[test]
fn run_and_step_agree() {
    let source = "var i = 0; while (i < 5) { i = i + 1; } print i;";
    let by_steps = run(source);
    let program = parse(source);
    let mut interpreter = Resolver::new(Interpreter::new()).run(&program).unwrap();
    interpreter.interpret(&program);
    let mut lines = Vec::new();
    let mut event = Event::Resume;
    let end = loop {
        match interpreter.run(event, 7) {
            Action::Continue => event = Event::Resume,
            Action::Print(Output::Number(n)) => {
                lines.push(format!("{}", f64::from_bits(n)));
                event = Event::Resume;
            }
            Action::Print(Output::Text(id)) => {
                lines.push(interpreter.heap.text(id).clone());
                event = Event::Resume;
            }
            Action::Ask(request) => event = answer(request),
            Action::Finished(value) => break Ok(value),
            Action::Fault(e) => break Err(e),
        }
    };
    assert_eq!(lines, by_steps.lines);
    assert_eq!(end, by_steps.end);
}

#[test]
fn syntax_errors_are_told_apart() {
    let parse = |source: &str| Parser::new(scan(source)).parse().map(|_| ());
    assert_eq!(parse("1 +"), Err(SyntaxError::UnexpectedEnd));
    assert_eq!(parse("+ 1;"), Err(SyntaxError::UnexpectedToken));
    assert_eq!(parse("var 1 = 2;"), Err(SyntaxError::ExpectedVariableName));
    assert_eq!(parse("var a;"), Err(SyntaxError::ExpectedInitializer));
    assert_eq!(parse("var a = 1"), Err(SyntaxError::ExpectedSemicolon));
    assert_eq!(parse("print 1"), Err(SyntaxError::ExpectedSemicolon));
    assert_eq!(parse("if 1"), Err(SyntaxError::ExpectedLeftParen));
    assert_eq!(parse("while (true print 1;"), Err(SyntaxError::ExpectedRightParen));
    assert_eq!(parse("(1 + 2;"), Err(SyntaxError::ExpectedRightParen));
    assert_eq!(parse("f(1;"), Err(SyntaxError::ExpectedRightParen));
    assert_eq!(parse("fun f() 1"), Err(SyntaxError::ExpectedLeftBrace));
    assert_eq!(parse("class A 1"), Err(SyntaxError::ExpectedLeftBrace));
    assert_eq!(parse("{ print 1;"), Err(SyntaxError::ExpectedRightBrace));
    assert_eq!(parse("class 1 {}"), Err(SyntaxError::ExpectedClassName));
    assert_eq!(parse("class A < 1 {}"), Err(SyntaxError::ExpectedSuperclassName));
    assert_eq!(parse("super;"), Err(SyntaxError::ExpectedSuperclassMethod));
    assert_eq!(parse("fun 1() {}"), Err(SyntaxError::ExpectedFunctionName));
    assert_eq!(parse("class A { 1 }"), Err(SyntaxError::ExpectedFunctionName));
    assert_eq!(parse("fun f(1) {}"), Err(SyntaxError::ExpectedParameterName));
    assert_eq!(parse("a.1;"), Err(SyntaxError::ExpectedPropertyName));
    assert_eq!(parse("1 = 2;"), Err(SyntaxError::InvalidAssignmentTarget));
    assert_eq!(parse("a + b = 2;"), Err(SyntaxError::InvalidAssignmentTarget));
    assert_eq!(parse("// note\n1;"), Err(SyntaxError::UnexpectedToken));
    assert_eq!(parse(""), Ok(()));
}

#[test]
fn call_takes_at_most_255_arguments() {
    let args = |n: usize| vec!["1"; n].join(", ");
    let parse = |source: String| Parser::new(scan(&source)).parse().map(|_| ());
    assert_eq!(parse(format!("f({});", args(255))), Ok(()));
    assert_eq!(parse(format!("f({});", args(256))), Err(SyntaxError::TooManyArguments));
}

#[test]
fn function_takes_at_most_256_parameters() {
    let params = |n: usize| (0..n).map(|i| format!("p{}", i)).collect::<Vec<_>>().join(", ");
    let parse = |source: String| Parser::new(scan(&source)).parse().map(|_| ());
    assert_eq!(parse(format!("fun f({}) {{}}", params(256))), Ok(()));
    assert_eq!(parse(format!("fun f({}) {{}}", params(257))), Err(SyntaxError::TooManyParameters));
}

#[test]
fn initializer_may_return_without_a_value() {
    assert_eq!(resolve("class A { init() { return; } }"), Ok(()));
    assert_eq!(
        resolve("class A { init() { return 1; } }"),
        Err(ResolveError::ReturnFromInitializer)
    );
    assert_eq!(
        resolve("class A { init() { return nil; } }"),
        Err(ResolveError::ReturnFromInitializer)
    );
    assert_eq!(
        resolve("class A { init() { if (true) { return; } } }"),
        Ok(())
    );
    assert_eq!(resolve("class A { m() { return 1; } }"), Ok(()));
    assert_eq!(resolve("return;"), Err(ResolveError::ReturnOutsideFunction));
    assert_eq!(
        prints("class A { init() { this.x = 1; return; this.x = 2; } } var a = A(); print a; print a.x;"),
        lines(&["<instance:A>", "1"])
    );
}

#[test]
fn return_without_a_value_yields_nil() {
    assert_eq!(prints("fun f() { return; print 1; } print f();"), lines(&["null"]));
    assert_eq!(
        prints("fun f() { while (true) { { return; } } } print f(); print 2;"),
        lines(&["null", "2"])
    );
}
