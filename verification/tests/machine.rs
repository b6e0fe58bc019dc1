use rlox::eval::{Arithmetic, Relation, Request};
use rlox::interpreter::Interpreter;
use rlox::machine::{Action, Event, Output};
use rlox::resolver::{ResolveError, Resolver};
use rlox::scanner::{Token, TokenType};
use rlox::syntax::{ClassDecl, Declaration, Expr, ExprKind, FunctionStmt, Literal, Program, Stmt};
use rlox::types::{Identifier, Object, RuntimeError};

struct Build {
    next: u64,
}

impl Build {
    fn id(&mut self) -> u64 {
        let id = self.next;
        self.next += 1;
        id
    }

    fn expr(&mut self, kind: ExprKind) -> Expr {
        Expr { id: self.id(), kind }
    }

    fn num(&mut self, digits: &str) -> Expr {
        self.expr(ExprKind::Literal { value: Literal::Number(digits.to_string()) })
    }

    fn text(&mut self, s: &str) -> Expr {
        self.expr(ExprKind::Literal { value: Literal::String(s.to_string()) })
    }

    fn var(&mut self, name: &str) -> Expr {
        self.expr(ExprKind::Var { name: Identifier::new(name) })
    }

    fn binary(&mut self, left: Expr, op: TokenType, lexeme: &str, right: Expr) -> Expr {
        self.expr(ExprKind::Binary {
            left: Box::new(left),
            op: Token::new(op, lexeme, 0),
            right: Box::new(right),
        })
    }

    fn assign(&mut self, name: &str, value: Expr) -> Expr {
        self.expr(ExprKind::Assign { name: Identifier::new(name), expr: Box::new(value) })
    }

    fn call(&mut self, callee: Expr, args: Vec<Expr>) -> Expr {
        self.expr(ExprKind::Call {
            callee: Box::new(callee),
            parens: Token::new(TokenType::RightParen, ")", 0),
            args,
        })
    }
}

fn var_decl(name: &str, value: Expr) -> Declaration {
    Declaration::Var { identifier: Identifier::new(name), expression: value }
}

fn stmt(s: Stmt) -> Declaration {
    Declaration::Statement(s)
}

fn function(name: &str, params: &[&str], body: Vec<Declaration>) -> FunctionStmt {
    FunctionStmt {
        identifier: Identifier::new(name),
        parameters: params.iter().map(|p| Token::new(TokenType::Identifier, p, 0)).collect(),
        body,
    }
}

fn answer(request: Request) -> Event {
    match request {
        Request::Literal(digits) => Event::Number(digits.parse::<f64>().unwrap().to_bits()),
        Request::Negate(n) => Event::Number((-f64::from_bits(n)).to_bits()),
        Request::Arithmetic(op, a, b) => {
            let (a, b) = (f64::from_bits(a), f64::from_bits(b));
            Event::Number(
                match op {
                    Arithmetic::Add => a + b,
                    Arithmetic::Subtract => a - b,
                    Arithmetic::Multiply => a * b,
                    Arithmetic::Divide => a / b,
                }
                .to_bits(),
            )
        }
        Request::Relation(op, a, b) => {
            let (a, b) = (f64::from_bits(a), f64::from_bits(b));
            Event::Boolean(match op {
                Relation::Less => a < b,
                Relation::LessEqual => a <= b,
                Relation::Greater => a > b,
                Relation::GreaterEqual => a >= b,
                Relation::Equal => a == b,
            })
        }
        Request::Clock => Event::Number(12.5f64.to_bits()),
    }
}

/// Runs a resolved program to its end; returns the lines printed and how the run ended.
fn drive<'a>(interpreter: &mut Interpreter<'a>) -> (Vec<String>, Result<Object, RuntimeError>) {
    let mut lines = Vec::new();
    let mut event = Event::Resume;
    for _ in 0..1_000_000 {
        let action = interpreter.step(event);
        event = Event::Resume;
        match action {
            Action::Continue => {}
            Action::Print(Output::Text(id)) => lines.push(interpreter.heap.text(id).clone()),
            Action::Print(Output::Number(n)) => lines.push(format!("{}", f64::from_bits(n))),
            Action::Ask(request) => event = answer(request),
            Action::Finished(value) => return (lines, Ok(value)),
            Action::Fault(e) => return (lines, Err(e)),
        }
    }
    panic!("the program did not finish");
}

fn run(program: &Program) -> (Vec<String>, Result<Object, RuntimeError>) {
    let resolver = Resolver::new(Interpreter::new());
    let mut interpreter = resolver.run(program).expect("the program resolves");
    interpreter.interpret(program);
    drive(&mut interpreter)
}

fn resolve(program: &Program) -> Result<(), ResolveError> {
    Resolver::new(Interpreter::new()).run(program).map(|_| ())
}

fn number(x: f64) -> Object {
    Object::Number(x.to_bits())
}

#[test]
fn adds_two_numbers() {
    let mut b = Build { next: 0 };
    let one = b.num("1");
    let other = b.num("1");
    let sum = b.binary(one, TokenType::Plus, "+", other);
    let program = Program::Declarations(vec![stmt(Stmt::Expr(sum))]);
    let (lines, end) = run(&program);
    assert!(lines.is_empty());
    assert_eq!(end, Ok(number(2.0)));
}

#[test]
fn prints_product_of_grouped_sum() {
    let mut b = Build { next: 0 };
    let one = b.num("1");
    let three = b.num("3");
    let sum = b.binary(one, TokenType::Plus, "+", three);
    let group = b.expr(ExprKind::Grouping { expr: Box::new(sum) });
    let five = b.num("5");
    let product = b.binary(group, TokenType::Star, "*", five);
    let program = Program::Declarations(vec![stmt(Stmt::Print(product))]);
    let (lines, end) = run(&program);
    assert_eq!(lines, vec!["20".to_string()]);
    assert_eq!(end, Ok(Object::Null));
}

#[test]
fn number_plus_text_is_a_type_mismatch() {
    let mut b = Build { next: 0 };
    let one = b.num("1");
    let a = b.text("a");
    let sum = b.binary(one, TokenType::Plus, "+", a);
    let program = Program::Declarations(vec![stmt(Stmt::Expr(sum))]);
    let (_, end) = run(&program);
    assert_eq!(end, Err(RuntimeError::TypeMismatch));
}

#[test]
fn counter_closure_shares_its_variable() {
    // fun make() { var n = 0; fun inc() { n = n + 1; return n; } return inc; }
    // var c = make(); print c(); print c();
    let mut b = Build { next: 0 };
    let zero = b.num("0");
    let n1 = b.var("n");
    let one = b.num("1");
    let sum = b.binary(n1, TokenType::Plus, "+", one);
    let set = b.assign("n", sum);
    let n2 = b.var("n");
    let inc = function(
        "inc",
        &[],
        vec![stmt(Stmt::Expr(set)), stmt(Stmt::Return { value: Some(n2) })],
    );
    let inc_ref = b.var("inc");
    let make = function(
        "make",
        &[],
        vec![
            var_decl("n", zero),
            stmt(Stmt::FunctionDecl(inc)),
            stmt(Stmt::Return { value: Some(inc_ref) }),
        ],
    );
    let make_ref = b.var("make");
    let made = b.call(make_ref, vec![]);
    let c1 = b.var("c");
    let call1 = b.call(c1, vec![]);
    let c2 = b.var("c");
    let call2 = b.call(c2, vec![]);
    let program = Program::Declarations(vec![
        stmt(Stmt::FunctionDecl(make)),
        var_decl("c", made),
        stmt(Stmt::Print(call1)),
        stmt(Stmt::Print(call2)),
    ]);
    let (lines, end) = run(&program);
    assert_eq!(lines, vec!["1".to_string(), "2".to_string()]);
    assert_eq!(end, Ok(Object::Null));
}

#[test]
fn redeclaration_in_one_block_is_refused() {
    let mut b = Build { next: 0 };
    let one = b.num("1");
    let two = b.num("2");
    let program = Program::Declarations(vec![stmt(Stmt::Block(vec![
        var_decl("a", one),
        var_decl("a", two),
    ]))]);
    assert_eq!(resolve(&program), Err(ResolveError::AlreadyDeclared));
}

#[test]
fn class_without_init_takes_no_argument() {
    let mut b = Build { next: 0 };
    let class = ClassDecl { name: Identifier::new("A"), methods: vec![], superclass: None };
    let a = b.var("A");
    let one = b.num("1");
    let call = b.call(a, vec![one]);
    let program = Program::Declarations(vec![
        stmt(Stmt::ClassDecl(class)),
        stmt(Stmt::Expr(call)),
    ]);
    let (_, end) = run(&program);
    assert_eq!(end, Err(RuntimeError::ArityMismatch));
}

#[test]
fn superclass_clause_must_be_a_name() {
    let mut b = Build { next: 0 };
    let literal = b.num("1");
    let class = ClassDecl {
        name: Identifier::new("A"),
        methods: vec![],
        superclass: Some(literal),
    };
    let program = Program::Declarations(vec![stmt(Stmt::ClassDecl(class))]);
    assert_eq!(resolve(&program), Err(ResolveError::SuperclassNotAName));
}

#[test]
fn wrong_annotation_is_an_inconsistency() {
    let mut b = Build { next: 0 };
    let read = b.var("clock");
    let program = Program::Declarations(vec![stmt(Stmt::Expr(read))]);
    let mut interpreter = Interpreter::new();
    let Program::Declarations(decls) = &program;
    let Declaration::Statement(Stmt::Expr(expr)) = &decls[0] else {
        panic!("not an expression");
    };
    interpreter.resolve(expr, 3);
    interpreter.interpret(&program);
    let (_, end) = drive(&mut interpreter);
    assert_eq!(end, Err(RuntimeError::Inconsistent));
}

#[test]
fn expression_can_be_evaluated_on_its_own() {
    let mut b = Build { next: 0 };
    let two = b.num("2");
    let three = b.num("3");
    let product = b.binary(two, TokenType::Star, "*", three);
    let mut interpreter = Interpreter::new();
    interpreter.eval(&product);
    let (lines, end) = drive(&mut interpreter);
    assert!(lines.is_empty());
    assert_eq!(end, Ok(number(6.0)));
}

#[test]
fn statement_and_declaration_can_be_executed_on_their_own() {
    let mut b = Build { next: 0 };
    let seven = b.num("7");
    let declaration = var_decl("a", seven);
    let read = b.var("a");
    let print = Stmt::Print(read);
    let mut interpreter = Interpreter::new();
    interpreter.execute(&declaration);
    let (lines, end) = drive(&mut interpreter);
    assert!(lines.is_empty());
    assert_eq!(end, Ok(Object::Null));
    interpreter.execute_stmt(&print);
    let (lines, end) = drive(&mut interpreter);
    assert_eq!(lines, vec!["7".to_string()]);
    assert_eq!(end, Ok(Object::Null));
}

#[test]
fn block_runs_in_the_scope_given_and_restores_the_one_in_force() {
    let mut b = Build { next: 0 };
    let one = b.num("1");
    let decls = vec![var_decl("local", one)];
    let mut interpreter = Interpreter::new();
    let globals = interpreter.globals;
    let scope = interpreter.heap.new_scope(Some(globals));
    interpreter.execute_block(&decls, scope);
    assert_eq!(interpreter.environment, scope);
    let (_, end) = drive(&mut interpreter);
    assert_eq!(end, Ok(Object::Null));
    assert_eq!(interpreter.environment, globals);
    assert_eq!(
        rlox::environment::Environment::get_at(
            &interpreter.heap.scopes,
            scope,
            0,
            &Identifier::new("local")
        ),
        Some(number(1.0))
    );
    assert_eq!(
        rlox::environment::Environment::get(
            &interpreter.heap.scopes,
            globals,
            &Identifier::new("local")
        ),
        None
    );
}

#[test]
fn action_tells_what_the_host_has_to_do() {
    let mut b = Build { next: 0 };
    let one = b.num("1");
    let program = Program::Declarations(vec![stmt(Stmt::Print(one))]);
    let mut interpreter = Resolver::new(Interpreter::new()).run(&program).unwrap();
    assert!(matches!(interpreter.action(), Action::Finished(Object::Null)));
    interpreter.interpret(&program);
    assert!(matches!(interpreter.action(), Action::Continue));
    let mut action = interpreter.step(Event::Resume);
    while matches!(action, Action::Continue) {
        action = interpreter.step(Event::Resume);
    }
    assert!(matches!(action, Action::Ask(Request::Literal(_))));
    assert!(matches!(interpreter.action(), Action::Ask(Request::Literal(_))));
    let mut action = interpreter.step(Event::Number(1.0f64.to_bits()));
    while matches!(action, Action::Continue) {
        action = interpreter.step(Event::Resume);
    }
    assert!(matches!(action, Action::Print(Output::Number(_))));
    let mut action = interpreter.step(Event::Resume);
    while matches!(action, Action::Continue) {
        action = interpreter.step(Event::Resume);
    }
    assert!(matches!(action, Action::Finished(Object::Null)));
    assert!(matches!(interpreter.step(Event::Resume), Action::Finished(Object::Null)));
    assert_eq!(interpreter.describe(Object::Null), Ok("null".to_string()));
    assert_eq!(interpreter.describe(Object::Boolean(true)), Ok("true".to_string()));
    assert_eq!(interpreter.describe(Object::Class(4)), Err(RuntimeError::Inconsistent));
}

#[test]
fn return_without_value_is_allowed_in_an_initializer() {
    let mut b = Build { next: 0 };
    let bare = function("init", &[], vec![stmt(Stmt::Return { value: None })]);
    let class = ClassDecl { name: Identifier::new("A"), methods: vec![bare], superclass: None };
    let program = Program::Declarations(vec![stmt(Stmt::ClassDecl(class))]);
    assert_eq!(resolve(&program), Ok(()));

    let one = b.num("1");
    let valued = function("init", &[], vec![stmt(Stmt::Return { value: Some(one) })]);
    let class = ClassDecl { name: Identifier::new("A"), methods: vec![valued], superclass: None };
    let program = Program::Declarations(vec![stmt(Stmt::ClassDecl(class))]);
    assert_eq!(resolve(&program), Err(ResolveError::ReturnFromInitializer));

    let program = Program::Declarations(vec![stmt(Stmt::Return { value: None })]);
    assert_eq!(resolve(&program), Err(ResolveError::ReturnOutsideFunction));
}
