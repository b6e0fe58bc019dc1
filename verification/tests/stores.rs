use rlox::builtins::{clock_fn, get_builtins, Builtin};
use rlox::callable::Function;
use rlox::class::{Class, ClassInstance};
use rlox::environment::{Environment, Scopes};
use rlox::eval::{
    eval_binary, eval_literal, eval_logical, eval_unary, is_equal, Arithmetic, Outcome, Relation,
    Request,
};
use rlox::heap::Heap;
use rlox::interpreter::Interpreter;
use rlox::grammar::SyntaxError;
use rlox::resolver::{ResolveError, Resolver};
use rlox::scanner::{Token, TokenType};
use rlox::syntax::{Expr, ExprKind, FunctionStmt, Literal};
use rlox::text::{bracket, decimal};
use rlox::types::{Callable, Identifier, Object, RuntimeError};
use vstd::hash_map::StringHashMap;

fn name(s: &str) -> Identifier {
    Identifier::new(s)
}

#[test]
fn define_binds_in_the_receiving_scope_only() {
    let mut scopes = Scopes::new();
    let outer = Environment::new_ref(&mut scopes, None);
    let inner = Environment::new_ref(&mut scopes, Some(outer));
    Environment::define_in(&mut scopes, outer, &name("a"), Object::Boolean(true));
    Environment::define_in(&mut scopes, inner, &name("a"), Object::Null);
    assert_eq!(Environment::get(&scopes, outer, &name("a")), Some(Object::Boolean(true)));
    assert_eq!(Environment::get(&scopes, inner, &name("a")), Some(Object::Null));
    scopes.records[inner].define(&name("a"), Object::Number(7));
    assert_eq!(Environment::get(&scopes, inner, &name("a")), Some(Object::Number(7)));
    assert_eq!(Environment::get(&scopes, outer, &name("a")), Some(Object::Boolean(true)));
    assert_eq!(scopes.len(), 2);
    assert_eq!(scopes.parent_of(inner), Some(outer));
    assert_eq!(scopes.parent_of(outer), None);
}

#[test]
fn get_walks_outwards_and_reports_absence() {
    let mut scopes = Scopes::new();
    let a = Environment::new_ref(&mut scopes, None);
    let b = Environment::new_ref(&mut scopes, Some(a));
    let c = Environment::new_ref(&mut scopes, Some(b));
    Environment::define_in(&mut scopes, a, &name("x"), Object::Number(1));
    assert_eq!(Environment::get(&scopes, c, &name("x")), Some(Object::Number(1)));
    assert_eq!(Environment::get(&scopes, c, &name("y")), None);
}

#[test]
fn get_at_reads_exactly_one_scope() {
    let mut scopes = Scopes::new();
    let a = Environment::new_ref(&mut scopes, None);
    let b = Environment::new_ref(&mut scopes, Some(a));
    let c = Environment::new_ref(&mut scopes, Some(b));
    Environment::define_in(&mut scopes, a, &name("x"), Object::Number(1));
    Environment::define_in(&mut scopes, c, &name("x"), Object::Number(3));
    assert_eq!(Environment::get_at(&scopes, c, 0, &name("x")), Some(Object::Number(3)));
    assert_eq!(Environment::get_at(&scopes, c, 1, &name("x")), None);
    assert_eq!(Environment::get_at(&scopes, c, 2, &name("x")), Some(Object::Number(1)));
    assert_eq!(Environment::get_at(&scopes, c, 3, &name("x")), None);
    assert_eq!(Environment::ancestor(&scopes, c, 2), Some(a));
    assert_eq!(Environment::ancestor(&scopes, c, 3), None);
}

#[test]
fn assign_at_writes_without_searching() {
    let mut scopes = Scopes::new();
    let a = Environment::new_ref(&mut scopes, None);
    let b = Environment::new_ref(&mut scopes, Some(a));
    assert!(Environment::assign_at(&mut scopes, b, 1, &name("x"), Object::Number(5)));
    assert_eq!(Environment::get_at(&scopes, b, 1, &name("x")), Some(Object::Number(5)));
    assert_eq!(Environment::get_at(&scopes, b, 0, &name("x")), None);
    assert!(!Environment::assign_at(&mut scopes, b, 2, &name("x"), Object::Number(6)));
    assert_eq!(Environment::get(&scopes, b, &name("x")), Some(Object::Number(5)));
}

#[test]
fn mutate_replaces_the_nearest_binding() {
    let mut scopes = Scopes::new();
    let a = Environment::new_ref(&mut scopes, None);
    let b = Environment::new_ref(&mut scopes, Some(a));
    Environment::define_in(&mut scopes, a, &name("x"), Object::Number(1));
    assert_eq!(
        Environment::mutate(&mut scopes, b, &name("x"), Object::Number(2)),
        Some(Object::Number(1))
    );
    assert_eq!(Environment::get_at(&scopes, b, 1, &name("x")), Some(Object::Number(2)));
    assert_eq!(Environment::get_at(&scopes, b, 0, &name("x")), None);
    assert_eq!(Environment::mutate(&mut scopes, b, &name("y"), Object::Number(2)), None);
    assert_eq!(Environment::get(&scopes, b, &name("y")), None);
    let empty = Environment::default();
    assert_eq!(empty.parent, None);
}

#[test]
fn texts_are_stored_compared_and_joined() {
    let mut heap = Heap::new();
    let a = heap.add_text("foo".to_string());
    let b = heap.add_text("bar".to_string());
    let c = heap.add_text("foo".to_string());
    assert_eq!((a, b, c), (Object::String(0), Object::String(1), Object::String(2)));
    assert!(heap.same_text(0, 2));
    assert!(!heap.same_text(0, 1));
    assert_eq!(heap.concat(0, 1), Object::String(3));
    assert_eq!(heap.text(3), "foobar");
    assert_eq!(heap.text(0), "foo");
}

#[test]
fn heap_scopes_follow_their_links() {
    let mut heap = Heap::new();
    let a = heap.new_scope(None);
    let b = heap.new_scope(Some(a));
    heap.define(a, &name("x"), Object::Number(1));
    assert!(heap.assign_at(b, 1, &name("x"), Object::Number(2)));
    assert!(!heap.assign_at(b, 2, &name("x"), Object::Number(3)));
    assert_eq!(heap.mutate(b, &name("x"), Object::Number(4)), Some(Object::Number(2)));
    assert_eq!(heap.mutate(b, &name("nope"), Object::Number(4)), None);
    assert_eq!(Environment::get(&heap.scopes, b, &name("x")), Some(Object::Number(4)));
}

fn method(name_: &str, params: &[&str]) -> FunctionStmt {
    FunctionStmt {
        identifier: name(name_),
        parameters: params.iter().map(|p| Token::new(TokenType::Identifier, p, 0)).collect(),
        body: vec![],
    }
}

#[test]
fn nearest_method_wins_along_the_superclass_chain() {
    let greet_a = method("greet", &[]);
    let greet_b = method("greet", &["x"]);
    let only_a = method("only", &["x", "y"]);
    let mut heap = Heap::new();
    let env = heap.new_scope(None);
    let fa = Function::store(&mut heap, Function::new(&greet_a, env, false));
    let fo = Function::store(&mut heap, Function::new(&only_a, env, false));
    let fb = Function::store(&mut heap, Function::new(&greet_b, env, false));
    let mut methods_a = StringHashMap::new();
    methods_a.insert("greet".to_string(), fa);
    methods_a.insert("only".to_string(), fo);
    let a = Class::new(&mut heap, name("A"), None, methods_a);
    let mut methods_b = StringHashMap::new();
    methods_b.insert("greet".to_string(), fb);
    let b = Class::new(&mut heap, name("B"), Some(a), methods_b);
    let c = Class::new(&mut heap, name("C"), Some(b), StringHashMap::new());
    assert_eq!(Class::find_method(&heap, a, &name("greet")), Some(fa));
    assert_eq!(Class::find_method(&heap, b, &name("greet")), Some(fb));
    assert_eq!(Class::find_method(&heap, c, &name("greet")), Some(fb));
    assert_eq!(Class::find_method(&heap, c, &name("only")), Some(fo));
    assert_eq!(Class::find_method(&heap, c, &name("none")), None);
    assert_eq!(Class::arity(&heap, c), 0);
    assert_eq!(heap.functions[fb].arity(), 1);
    assert_eq!(heap.functions[fo].arity(), 2);
}

#[test]
fn constructor_arity_is_that_of_the_initializer() {
    let init = method("init", &["a", "b", "c"]);
    let mut heap = Heap::new();
    let env = heap.new_scope(None);
    let f = Function::store(&mut heap, Function::new(&init, env, true));
    let mut methods = StringHashMap::new();
    methods.insert("init".to_string(), f);
    let a = Class::new(&mut heap, name("A"), None, methods);
    let b = Class::new(&mut heap, name("B"), Some(a), StringHashMap::new());
    assert_eq!(Class::arity(&heap, a), 3);
    assert_eq!(Class::arity(&heap, b), 3);
}

#[test]
fn field_is_read_before_method_and_method_comes_bound() {
    let m = method("m", &[]);
    let mut heap = Heap::new();
    let env = heap.new_scope(None);
    let f = Function::store(&mut heap, Function::new(&m, env, false));
    let mut methods = StringHashMap::new();
    methods.insert("m".to_string(), f);
    let class = Class::new(&mut heap, name("A"), None, methods);
    let instance = ClassInstance::new(&mut heap, class);
    let bound = ClassInstance::get(&mut heap, instance, &name("m"));
    assert_eq!(bound, Ok(Object::Callable(Callable::Function(1))));
    let closure = heap.functions[1].closure;
    assert_ne!(closure, env);
    assert_eq!(heap.scopes.parent_of(closure), Some(env));
    assert_eq!(
        Environment::get_at(&heap.scopes, closure, 0, &name("this")),
        Some(Object::ClassInstance(instance))
    );
    assert_eq!(heap.functions[f].closure, env);
    ClassInstance::set(&mut heap, instance, &name("m"), Object::Number(9));
    assert_eq!(ClassInstance::get(&mut heap, instance, &name("m")), Ok(Object::Number(9)));
    assert_eq!(
        ClassInstance::get(&mut heap, instance, &name("x")),
        Err(RuntimeError::UndefinedProperty)
    );
    assert_eq!(Function::bind(&mut heap, f, instance), Object::Callable(Callable::Function(2)));
}

#[test]
fn truthiness_is_defined_for_booleans_only() {
    assert_eq!(Object::Boolean(true).is_truthy(), Ok(true));
    assert_eq!(Object::Boolean(false).is_truthy(), Ok(false));
    assert_eq!(Object::Null.is_truthy(), Err(RuntimeError::NonBoolean));
    assert_eq!(Object::Number(0).is_truthy(), Err(RuntimeError::NonBoolean));
    assert_eq!(Object::String(0).is_truthy(), Err(RuntimeError::NonBoolean));
}

#[test]
fn identifiers_compare_by_text() {
    assert!(name("a").same(&name("a")));
    assert!(!name("a").same(&name("b")));
    assert!(name("init").is("init"));
    assert!(!name("init").is("in"));
    assert_eq!(name("abc").as_str(), "abc");
    assert!(name("x").clone().same(&name("x")));
}

#[test]
fn builtins_hold_the_clock() {
    let table = get_builtins();
    assert_eq!(table.len(), 1);
    assert_eq!(table[0].0, "clock");
    assert_eq!(table[0].1, Object::Callable(Callable::Builtin(Builtin::Clock)));
    assert_eq!(clock_fn(), Object::Callable(Callable::Builtin(Builtin::Clock)));
    assert_eq!(Builtin::Clock.arity(), 0);
    let interpreter = Interpreter::new();
    assert_eq!(
        Environment::get(&interpreter.heap.scopes, interpreter.globals, &name("clock")),
        Some(clock_fn())
    );
}

#[test]
fn binary_operators_decide_by_operand_kinds() {
    let mut heap = Heap::new();
    let n = |x: u64| Object::Number(x);
    let ask = |outcome: Outcome| match outcome {
        Outcome::Ask { request, negate } => (format!("{:?}", request), negate),
        other => panic!("unexpected {:?}", other),
    };
    assert_eq!(
        ask(eval_binary(&mut heap, n(1), TokenType::Plus, n(2))),
        (format!("{:?}", Request::Arithmetic(Arithmetic::Add, 1, 2)), false)
    );
    assert_eq!(
        ask(eval_binary(&mut heap, n(1), TokenType::Minus, n(2))),
        (format!("{:?}", Request::Arithmetic(Arithmetic::Subtract, 1, 2)), false)
    );
    assert_eq!(
        ask(eval_binary(&mut heap, n(1), TokenType::Star, n(2))),
        (format!("{:?}", Request::Arithmetic(Arithmetic::Multiply, 1, 2)), false)
    );
    assert_eq!(
        ask(eval_binary(&mut heap, n(1), TokenType::Slash, n(2))),
        (format!("{:?}", Request::Arithmetic(Arithmetic::Divide, 1, 2)), false)
    );
    assert_eq!(
        ask(eval_binary(&mut heap, n(1), TokenType::Less, n(2))),
        (format!("{:?}", Request::Relation(Relation::Less, 1, 2)), false)
    );
    assert_eq!(
        ask(eval_binary(&mut heap, n(1), TokenType::GreaterEqual, n(2))),
        (format!("{:?}", Request::Relation(Relation::GreaterEqual, 1, 2)), false)
    );
    assert_eq!(
        ask(eval_binary(&mut heap, n(1), TokenType::EqualEqual, n(2))),
        (format!("{:?}", Request::Relation(Relation::Equal, 1, 2)), false)
    );
    assert_eq!(
        ask(eval_binary(&mut heap, n(1), TokenType::BangEqual, n(2))),
        (format!("{:?}", Request::Relation(Relation::Equal, 1, 2)), true)
    );
    assert!(matches!(
        eval_binary(&mut heap, n(1), TokenType::And, n(2)),
        Outcome::Fault(RuntimeError::TypeMismatch)
    ));
    assert!(matches!(
        eval_binary(&mut heap, Object::Null, TokenType::EqualEqual, Object::Boolean(false)),
        Outcome::Value(Object::Boolean(false))
    ));
    assert!(matches!(
        eval_binary(&mut heap, Object::Null, TokenType::BangEqual, Object::Null),
        Outcome::Value(Object::Boolean(false))
    ));
    let a = heap.add_text("a".to_string());
    let b = heap.add_text("b".to_string());
    assert!(matches!(
        eval_binary(&mut heap, a, TokenType::Plus, b),
        Outcome::Value(Object::String(2))
    ));
    assert_eq!(heap.text(2), "ab");
    assert!(matches!(
        eval_binary(&mut heap, a, TokenType::Plus, Object::String(99)),
        Outcome::Fault(RuntimeError::Inconsistent)
    ));
    assert_eq!(is_equal(&heap, a, b), Ok(false));
    assert_eq!(is_equal(&heap, a, a), Ok(true));
    assert_eq!(is_equal(&heap, a, Object::Null), Ok(false));
    assert_eq!(is_equal(&heap, Object::Class(0), Object::Class(1)), Err(RuntimeError::UnsupportedEquality));
    assert!(Request::Relation(Relation::Less, 0, 0).answered_by_truth());
    assert!(!Request::Clock.answered_by_truth());
    assert!(!Request::Negate(1).answered_by_truth());
}

#[test]
fn unary_logical_and_literal_outcomes() {
    assert!(matches!(
        eval_unary(TokenType::Minus, Object::Number(5)),
        Outcome::Ask { request: Request::Negate(5), negate: false }
    ));
    assert!(matches!(
        eval_unary(TokenType::Minus, Object::Null),
        Outcome::Fault(RuntimeError::TypeMismatch)
    ));
    assert!(matches!(
        eval_unary(TokenType::Bang, Object::Boolean(true)),
        Outcome::Fault(RuntimeError::UnsupportedOperator)
    ));
    assert_eq!(eval_logical(TokenType::Or, Object::Boolean(true)), Ok(true));
    assert_eq!(eval_logical(TokenType::Or, Object::Boolean(false)), Ok(false));
    assert_eq!(eval_logical(TokenType::And, Object::Boolean(true)), Ok(false));
    assert_eq!(eval_logical(TokenType::And, Object::Boolean(false)), Ok(true));
    assert_eq!(eval_logical(TokenType::And, Object::Null), Err(RuntimeError::NonBoolean));
    let mut heap = Heap::new();
    let text = Literal::String("hi".to_string());
    assert!(matches!(eval_literal(&mut heap, &text), Outcome::Value(Object::String(0))));
    assert_eq!(heap.text(0), "hi");
    let digits = Literal::Number("1.5".to_string());
    match eval_literal(&mut heap, &digits) {
        Outcome::Ask { request: Request::Literal(d), negate: false } => assert_eq!(d, "1.5"),
        other => panic!("unexpected {:?}", other),
    }
    assert!(matches!(
        eval_literal(&mut heap, &Literal::Boolean(true)),
        Outcome::Value(Object::Boolean(true))
    ));
    assert!(matches!(eval_literal(&mut heap, &Literal::Null), Outcome::Value(Object::Null)));
}

#[test]
fn counts_are_written_in_decimal() {
    assert_eq!(decimal(0), "0");
    assert_eq!(decimal(7), "7");
    assert_eq!(decimal(10), "10");
    assert_eq!(decimal(255), "255");
    assert_eq!(decimal(1234567890), "1234567890");
    assert_eq!(bracket("<", "x", ">"), "<x>");
}

#[test]
fn resolver_records_scope_distances() {
    // { var a = 1; { { a; } } }   and a global read
    let read = Expr { id: 7, kind: ExprKind::Var { name: name("a") } };
    let global = Expr { id: 8, kind: ExprKind::Var { name: name("g") } };
    let program = rlox::syntax::Program::Declarations(vec![rlox::syntax::Declaration::Statement(
        rlox::syntax::Stmt::Block(vec![
            rlox::syntax::Declaration::Var {
                identifier: name("a"),
                expression: Expr { id: 1, kind: ExprKind::Literal { value: Literal::Null } },
            },
            rlox::syntax::Declaration::Statement(rlox::syntax::Stmt::Block(vec![
                rlox::syntax::Declaration::Statement(rlox::syntax::Stmt::Block(vec![
                    rlox::syntax::Declaration::Statement(rlox::syntax::Stmt::Expr(read)),
                    rlox::syntax::Declaration::Statement(rlox::syntax::Stmt::Expr(global)),
                ])),
            ])),
        ]),
    )]);
    let interpreter = Resolver::new(Interpreter::new()).run(&program).unwrap();
    assert_eq!(interpreter.distance(7), Some(2));
    assert_eq!(interpreter.distance(8), None);
    assert_eq!(interpreter.distance(1), None);
    let mut interpreter = interpreter;
    interpreter.resolve(&Expr { id: 8, kind: ExprKind::Literal { value: Literal::Null } }, 5);
    assert_eq!(interpreter.distance(8), Some(5));
}

#[test]
fn errors_say_what_went_wrong() {
    assert_eq!(RuntimeError::UndefinedVariable.message(), "undefined variable");
    assert_eq!(RuntimeError::ArityMismatch.message(), "wrong number of arguments");
    assert_eq!(RuntimeError::NotAnInstance.message(), "only instances have properties");
    assert_eq!(
        ResolveError::ReadInOwnInitializer.message(),
        "can't read local var in its own initializer"
    );
    assert_eq!(ResolveError::InheritsFromItself.message(), "a class can't inherit from itself");
    assert_eq!(SyntaxError::ExpectedSemicolon.message(), "expected ';'");
    assert_eq!(SyntaxError::TooManyArguments.message(), "can't have more than 255 arguments!");
}

#[test]
fn only_declared_functions_can_be_bound() {
    let m = method("m", &["a"]);
    let mut heap = Heap::new();
    let env = heap.new_scope(None);
    let f = Function::store(&mut heap, Function::new(&m, env, false));
    let class = Class::new(&mut heap, name("A"), None, StringHashMap::new());
    let instance = ClassInstance::new(&mut heap, class);
    assert_eq!(Callable::Function(f).arity(&heap), Some(1));
    assert_eq!(Callable::Function(9).arity(&heap), None);
    assert_eq!(Callable::Builtin(Builtin::Clock).arity(&heap), Some(0));
    assert_eq!(
        Callable::Builtin(Builtin::Clock).bind(&mut heap, instance),
        Err(RuntimeError::UnsupportedBind)
    );
    assert_eq!(Callable::Function(9).bind(&mut heap, instance), Err(RuntimeError::Inconsistent));
    assert_eq!(
        Callable::Function(f).bind(&mut heap, instance),
        Ok(Object::Callable(Callable::Function(1)))
    );
    assert_eq!(heap.functions.len(), 2);
}

#[test]
fn instance_of_a_missing_class_is_an_inconsistency() {
    let mut heap = Heap::new();
    let instance = ClassInstance::new(&mut heap, 7);
    assert_eq!(
        ClassInstance::get(&mut heap, instance, &name("x")),
        Err(RuntimeError::Inconsistent)
    );
    ClassInstance::set(&mut heap, instance, &name("x"), Object::Null);
    assert_eq!(ClassInstance::get(&mut heap, instance, &name("x")), Ok(Object::Null));
}
