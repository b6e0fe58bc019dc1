use rlox::scanner::{Scanner, Token, TokenType};
use rlox::syntax::{Declaration, Expr, ExprKind, Literal, Parser, Program, Stmt};

#[test]
fn test() {
    let expr = Expr {
        id: 0,
        kind: ExprKind::Binary {
            left: Box::new(Expr {
                id: 1,
                kind: ExprKind::Literal { value: Literal::Number("1.2".to_string()) },
            }),
            op: Token::new(TokenType::Plus, "+", 0),
            right: Box::new(Expr {
                id: 2,
                kind: ExprKind::Literal { value: Literal::Number("3.4".to_string()) },
            }),
        },
    };
    println!("{}", expr.to_text());
}

fn parse(source: &str) -> Program {
    let tokens = Scanner::new(source).scan_tokens().collect().into_iter().map(|t| t.unwrap()).collect();
    Parser::new(tokens).parse().expect("the source parses")
}

fn expression(source: &str) -> Expr {
    let Program::Declarations(mut decls) = parse(source);
    assert_eq!(decls.len(), 1);
    match decls.remove(0) {
        Declaration::Statement(Stmt::Expr(expr)) => expr,
        other => panic!("not an expression statement: {:?}", other),
    }
}

#[test]
fn binary_expression_is_written_without_blanks() {
    let expr = Expr {
        id: 0,
        kind: ExprKind::Binary {
            left: Box::new(Expr {
                id: 1,
                kind: ExprKind::Literal { value: Literal::Number("1.2".to_string()) },
            }),
            op: Token::new(TokenType::Plus, "+", 0),
            right: Box::new(Expr {
                id: 2,
                kind: ExprKind::Literal { value: Literal::Number("3.4".to_string()) },
            }),
        },
    };
    assert_eq!(expr.to_text(), "1.2+3.4");
}

#[test]
fn expressions_are_written_out() {
    let cases = [
        ("a = b . c ( 1 , \"x\" , true ) ;", "a=b.c(1,x,true)"),
        ("( 1 + 2 ) * - 3 ;", "(1+2)*-3"),
        ("a or b and nil ;", "aorbandnull"),
        ("f ( ) ( 1 ) ;", "f()(1)"),
        ("this . x = super . m ;", "this.x=super.m"),
        ("! false ;", "!false"),
        ("a . b . c = 1 <= 2 ;", "a.b.c=1<=2"),
    ];
    for (source, text) in cases {
        assert_eq!(expression(source).to_text(), text, "{}", source);
    }
}

fn shape(expr: &Expr) -> String {
    match &expr.kind {
        ExprKind::Binary { left, op, right } | ExprKind::Logical { left, op, right } => {
            format!("({} {} {})", op.lexeme, shape(left), shape(right))
        }
        ExprKind::Unary { op, right } => format!("({} {})", op.lexeme, shape(right)),
        ExprKind::Grouping { expr } => format!("(group {})", shape(expr)),
        ExprKind::Assign { name, expr } => format!("(= {} {})", name.as_str(), shape(expr)),
        ExprKind::Call { callee, args, .. } => {
            let args: Vec<String> = args.iter().map(shape).collect();
            format!("(call {} [{}])", shape(callee), args.join(" "))
        }
        ExprKind::Get { name, object } => format!("(get {} {})", shape(object), name.as_str()),
        ExprKind::Put { object, name, value } => {
            format!("(put {} {} {})", shape(object), name.as_str(), shape(value))
        }
        _ => expr.to_text(),
    }
}

#[test]
fn operators_group_by_level_and_from_the_left() {
    let cases = [
        ("1 + 2 * 3;", "(+ 1 (* 2 3))"),
        ("1 * 2 + 3;", "(+ (* 1 2) 3)"),
        ("1 - 2 - 3;", "(- (- 1 2) 3)"),
        ("8 / 4 / 2;", "(/ (/ 8 4) 2)"),
        ("1 < 2 == 3 > 4;", "(== (< 1 2) (> 3 4))"),
        ("1 == 2 != 3;", "(!= (== 1 2) 3)"),
        ("a or b and c or d;", "(or (or a (and b c)) d)"),
        ("a = b = c;", "(= a (= b c))"),
        ("- - 1;", "(- (- 1))"),
        ("-a.b(1)(2).c;", "(- (get (call (call (get a b) [1]) [2]) c))"),
        ("a.b = c or d;", "(put a b (or c d))"),
        ("(1 + 2) * 3;", "(* (group (+ 1 2)) 3)"),
        ("1 + 2 <= 3 * 4 and 5 == 6;", "(and (<= (+ 1 2) (* 3 4)) (== 5 6))"),
    ];
    for (source, expected) in cases {
        assert_eq!(shape(&expression(source)), expected, "{}", source);
    }
}

fn ids(expr: &Expr, out: &mut Vec<u64>) {
    out.push(expr.id);
    match &expr.kind {
        ExprKind::Binary { left, right, .. } | ExprKind::Logical { left, right, .. } => {
            ids(left, out);
            ids(right, out);
        }
        ExprKind::Unary { right, .. } => ids(right, out),
        ExprKind::Grouping { expr } | ExprKind::Assign { expr, .. } => ids(expr, out),
        ExprKind::Call { callee, args, .. } => {
            ids(callee, out);
            for arg in args {
                ids(arg, out);
            }
        }
        ExprKind::Get { object, .. } => ids(object, out),
        ExprKind::Put { object, value, .. } => {
            ids(object, out);
            ids(value, out);
        }
        _ => {}
    }
}

#[test]
fn every_expression_gets_its_own_id() {
    let expr = expression("a = f(1 + 2, -b.c, (d or e)).g;");
    let mut found = Vec::new();
    ids(&expr, &mut found);
    let mut sorted = found.clone();
    sorted.sort();
    sorted.dedup();
    assert_eq!(sorted.len(), found.len());
    let simple = expression("1 + 2;");
    let mut found = Vec::new();
    ids(&simple, &mut found);
    assert_eq!(found, vec![2, 0, 1]);
    let prefix = expression("-1;");
    let mut found = Vec::new();
    ids(&prefix, &mut found);
    assert_eq!(found, vec![0, 1]);
}

#[test]
fn for_statement_stands_for_a_while_loop() {
    let Program::Declarations(decls) = parse("for (var i = 0; i < 3; i = i + 1) print i;");
    assert_eq!(decls.len(), 1);
    let Declaration::Statement(Stmt::Block(outer)) = &decls[0] else {
        panic!("not a block: {:?}", decls[0]);
    };
    assert_eq!(outer.len(), 2);
    assert!(matches!(outer[0], Declaration::Var { .. }));
    let Declaration::Statement(Stmt::While { condition, body }) = &outer[1] else {
        panic!("not a loop: {:?}", outer[1]);
    };
    assert_eq!(condition.to_text(), "i<3");
    let Stmt::Block(inner) = &**body else {
        panic!("not a block: {:?}", body);
    };
    assert_eq!(inner.len(), 2);
    assert!(matches!(inner[0], Declaration::Statement(Stmt::Print(_))));
    let Declaration::Statement(Stmt::Expr(step)) = &inner[1] else {
        panic!("not an expression: {:?}", inner[1]);
    };
    assert_eq!(step.to_text(), "i=i+1");

    let Program::Declarations(decls) = parse("for (;;) print 1;");
    let Declaration::Statement(Stmt::While { condition, body }) = &decls[0] else {
        panic!("not a loop: {:?}", decls[0]);
    };
    assert_eq!(condition.to_text(), "true");
    assert!(matches!(**body, Stmt::Print(_)));
}

#[test]
fn bare_return_carries_no_value() {
    let Program::Declarations(decls) = parse("fun f() { return; return 1; return nil; }");
    let Declaration::Statement(Stmt::FunctionDecl(f)) = &decls[0] else {
        panic!("not a function: {:?}", decls[0]);
    };
    assert_eq!(f.identifier.as_str(), "f");
    assert_eq!(f.parameters.len(), 0);
    assert_eq!(f.body.len(), 3);
    let Declaration::Statement(Stmt::Return { value }) = &f.body[0] else {
        panic!("not a return");
    };
    assert!(value.is_none());
    let Declaration::Statement(Stmt::Return { value }) = &f.body[1] else {
        panic!("not a return");
    };
    assert_eq!(value.as_ref().unwrap().to_text(), "1");
    assert_eq!(value.as_ref().unwrap().id, 0);
    let Declaration::Statement(Stmt::Return { value }) = &f.body[2] else {
        panic!("not a return");
    };
    assert_eq!(value.as_ref().unwrap().to_text(), "null");
}

#[test]
fn class_declaration_keeps_name_superclass_and_methods() {
    let Program::Declarations(decls) = parse("class B < A { init(x) { } m() { } }");
    let Declaration::Statement(Stmt::ClassDecl(class)) = &decls[0] else {
        panic!("not a class: {:?}", decls[0]);
    };
    assert_eq!(class.name.as_str(), "B");
    assert_eq!(class.superclass.as_ref().unwrap().to_text(), "A");
    assert_eq!(class.methods.len(), 2);
    assert_eq!(class.methods[0].identifier.as_str(), "init");
    assert_eq!(class.methods[0].parameters[0].lexeme, "x");
    assert_eq!(class.methods[1].identifier.as_str(), "m");
}

#[test]
fn parser_reads_tokens_one_by_one() {
    let tokens: Vec<Token> = Scanner::new("var a")
        .scan_tokens()
        .collect()
        .into_iter()
        .map(|t| t.unwrap())
        .collect();
    let mut parser = Parser::new(tokens);
    assert!(parser.peek_matches(&[TokenType::Fun, TokenType::Var]));
    assert!(!parser.peek_matches(&[TokenType::Fun]));
    assert!(parser.matches(&[TokenType::Fun]).is_none());
    assert_eq!(parser.matches(&[TokenType::Var]).unwrap().lexeme, "var");
    assert_eq!(parser.matches(&[TokenType::Identifier]).unwrap().lexeme, "a");
    assert!(parser.matches(&[TokenType::Identifier]).is_none());
    assert!(!parser.peek_matches(&[TokenType::Identifier]));
    assert_eq!(parser.position, 2);
}
