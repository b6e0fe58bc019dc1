//! The syntax tree of a program.

use vstd::prelude::*;
use vstd::string::StringExecFns;
use crate::grammar;
use crate::grammar::{after, starts, Input, Level, Parsed, SyntaxError};
use crate::scanner::{Token, TokenType};
use crate::types::Identifier;

verus! {

/// A program is a list of declarations, run in order.
#[derive(Debug)]
pub enum Program {
    Declarations(Vec<Declaration>),
}

/// A variable declaration or a statement.
#[derive(Debug)]
pub enum Declaration {
    Var { identifier: Identifier, expression: Expr },
    Statement(Stmt),
}

/// A function or method: name, parameters and body.
#[derive(Debug)]
pub struct FunctionStmt {
    pub identifier: Identifier,
    pub parameters: Vec<Token>,
    pub body: Vec<Declaration>,
}

/// A class: name, methods and the expression that names its superclass.
#[derive(Debug)]
pub struct ClassDecl {
    pub name: Identifier,
    pub methods: Vec<FunctionStmt>,
    pub superclass: Option<Expr>,
}

/// A statement.
#[derive(Debug)]
pub enum Stmt {
    Expr(Expr),
    FunctionDecl(FunctionStmt),
    ClassDecl(ClassDecl),
    If { condition: Expr, then_branch: Box<Stmt>, else_branch: Option<Box<Stmt>> },
    Print(Expr),
    /// `return` with the value to return, or without one.
    Return { value: Option<Expr> },
    While { condition: Expr, body: Box<Stmt> },
    Block(Vec<Declaration>),
}

/// A constant written in the source text. A number keeps the digits it was
/// written with; the host of the interpreter gives them their value.
#[derive(Debug)]
pub enum Literal {
    String(String),
    Number(String),
    Boolean(bool),
    Null,
}

/// An expression.
#[derive(Debug)]
pub struct Expr {
    /// Identifies this expression among all expressions of the program.
    pub id: u64,
    pub kind: ExprKind,
}

/// The forms of expressions.
#[derive(Debug)]
#[allow(inconsistent_fields)]
pub enum ExprKind {
    Assign { name: Identifier, expr: Box<Expr> },
    Binary { left: Box<Expr>, op: Token, right: Box<Expr> },
    Grouping { expr: Box<Expr> },
    Literal { value: Literal },
    Logical { left: Box<Expr>, op: Token, right: Box<Expr> },
    Unary { op: Token, right: Box<Expr> },
    Call { callee: Box<Expr>, parens: Token, args: Vec<Expr> },
    Get { name: Identifier, object: Box<Expr> },
    Put { object: Box<Expr>, name: Identifier, value: Box<Expr> },
    This { token: Identifier },
    Super { token: Identifier, method: Identifier },
    Var { name: Identifier },
}


/// A token as plain data.
pub struct TokenView {
    pub typ: TokenType,
    pub lexeme: Seq<char>,
    pub line: usize,
}

impl View for Token {
    type V = TokenView;

    open spec fn view(&self) -> TokenView {
        TokenView { typ: self.typ, lexeme: self.lexeme@, line: self.line }
    }
}

/// The tokens of a list as plain data.
pub open spec fn tokens_view(tokens: Seq<Token>) -> Seq<TokenView> {
    Seq::new(tokens.len(), |i: int| tokens[i]@)
}

/// A literal as plain data.
pub enum LiteralView {
    String(Seq<char>),
    Number(Seq<char>),
    Boolean(bool),
    Null,
}

impl View for Literal {
    type V = LiteralView;

    open spec fn view(&self) -> LiteralView {
        match self {
            Literal::String(s) => LiteralView::String(s@),
            Literal::Number(s) => LiteralView::Number(s@),
            Literal::Boolean(b) => LiteralView::Boolean(*b),
            Literal::Null => LiteralView::Null,
        }
    }
}

/// An expression as a mathematical tree.
pub struct ExprTree {
    pub id: nat,
    pub kind: ExprKindTree,
}

/// The forms of expressions, as mathematical trees.
#[allow(inconsistent_fields)]
pub enum ExprKindTree {
    Assign { name: Seq<char>, expr: Box<ExprTree> },
    Binary { left: Box<ExprTree>, op: TokenView, right: Box<ExprTree> },
    Grouping { expr: Box<ExprTree> },
    Literal { value: LiteralView },
    Logical { left: Box<ExprTree>, op: TokenView, right: Box<ExprTree> },
    Unary { op: TokenView, right: Box<ExprTree> },
    Call { callee: Box<ExprTree>, parens: TokenView, args: Seq<ExprTree> },
    Get { name: Seq<char>, object: Box<ExprTree> },
    Put { object: Box<ExprTree>, name: Seq<char>, value: Box<ExprTree> },
    This { token: Seq<char> },
    Super { token: Seq<char>, method: Seq<char> },
    Var { name: Seq<char> },
}

/// A statement as a mathematical tree.
pub enum StmtTree {
    Expr(ExprTree),
    FunctionDecl(FunctionTree),
    ClassDecl(ClassTree),
    If { condition: ExprTree, then_branch: Box<StmtTree>, else_branch: Option<Box<StmtTree>> },
    Print(ExprTree),
    Return { value: Option<ExprTree> },
    While { condition: ExprTree, body: Box<StmtTree> },
    Block(Seq<DeclTree>),
}

/// A declaration as a mathematical tree.
pub enum DeclTree {
    Var { identifier: Seq<char>, expression: ExprTree },
    Statement(StmtTree),
}

/// A function declaration as a mathematical tree.
pub struct FunctionTree {
    pub identifier: Seq<char>,
    pub parameters: Seq<TokenView>,
    pub body: Seq<DeclTree>,
}

/// A class declaration as a mathematical tree.
pub struct ClassTree {
    pub name: Seq<char>,
    pub methods: Seq<FunctionTree>,
    pub superclass: Option<ExprTree>,
}

/// The tree of an expression.
pub open spec fn expr_tree(e: &Expr) -> ExprTree
    decreases e,
{
    ExprTree {
        id: e.id as nat,
        kind: match &e.kind {
            ExprKind::Assign { name, expr } => ExprKindTree::Assign {
                name: name@,
                expr: Box::new(expr_tree(expr)),
            },
            ExprKind::Binary { left, op, right } => ExprKindTree::Binary {
                left: Box::new(expr_tree(left)),
                op: op@,
                right: Box::new(expr_tree(right)),
            },
            ExprKind::Grouping { expr } => ExprKindTree::Grouping {
                expr: Box::new(expr_tree(expr)),
            },
            ExprKind::Literal { value } => ExprKindTree::Literal { value: value@ },
            ExprKind::Logical { left, op, right } => ExprKindTree::Logical {
                left: Box::new(expr_tree(left)),
                op: op@,
                right: Box::new(expr_tree(right)),
            },
            ExprKind::Unary { op, right } => ExprKindTree::Unary {
                op: op@,
                right: Box::new(expr_tree(right)),
            },
            ExprKind::Call { callee, parens, args } => ExprKindTree::Call {
                callee: Box::new(expr_tree(callee)),
                parens: parens@,
                args: expr_trees(args@),
            },
            ExprKind::Get { name, object } => ExprKindTree::Get {
                name: name@,
                object: Box::new(expr_tree(object)),
            },
            ExprKind::Put { object, name, value } => ExprKindTree::Put {
                object: Box::new(expr_tree(object)),
                name: name@,
                value: Box::new(expr_tree(value)),
            },
            ExprKind::This { token } => ExprKindTree::This { token: token@ },
            ExprKind::Super { token, method } => ExprKindTree::Super {
                token: token@,
                method: method@,
            },
            ExprKind::Var { name } => ExprKindTree::Var { name: name@ },
        },
    }
}

/// The trees of a list of expressions.
pub open spec fn expr_trees(exprs: Seq<Expr>) -> Seq<ExprTree>
    decreases exprs,
{
    Seq::new(
        exprs.len(),
        |i: int|
            if 0 <= i < exprs.len() {
                expr_tree(&exprs[i])
            } else {
                arbitrary()
            },
    )
}

/// The tree of a statement.
pub open spec fn stmt_tree(s: &Stmt) -> StmtTree
    decreases s,
{
    match s {
        Stmt::Expr(expr) => StmtTree::Expr(expr_tree(expr)),
        Stmt::FunctionDecl(decl) => StmtTree::FunctionDecl(function_tree(decl)),
        Stmt::ClassDecl(decl) => StmtTree::ClassDecl(class_tree(decl)),
        Stmt::If { condition, then_branch, else_branch } => StmtTree::If {
            condition: expr_tree(condition),
            then_branch: Box::new(stmt_tree(then_branch)),
            else_branch: match else_branch {
                Some(stmt) => Some(Box::new(stmt_tree(stmt))),
                None => None,
            },
        },
        Stmt::Print(expr) => StmtTree::Print(expr_tree(expr)),
        Stmt::Return { value } => StmtTree::Return {
            value: match value {
                Some(expr) => Some(expr_tree(expr)),
                None => None,
            },
        },
        Stmt::While { condition, body } => StmtTree::While {
            condition: expr_tree(condition),
            body: Box::new(stmt_tree(body)),
        },
        Stmt::Block(decls) => StmtTree::Block(decl_trees(decls@)),
    }
}

/// The tree of a class declaration.
pub open spec fn class_tree(c: &ClassDecl) -> ClassTree
    decreases c,
{
    ClassTree {
        name: c.name@,
        methods: function_trees(c.methods@),
        superclass: match &c.superclass {
            Some(expr) => Some(expr_tree(expr)),
            None => None,
        },
    }
}

/// The tree of a declaration.
pub open spec fn decl_tree(d: &Declaration) -> DeclTree
    decreases d,
{
    match d {
        Declaration::Var { identifier, expression } => DeclTree::Var {
            identifier: identifier@,
            expression: expr_tree(expression),
        },
        Declaration::Statement(stmt) => DeclTree::Statement(stmt_tree(stmt)),
    }
}

/// The trees of a list of declarations.
pub open spec fn decl_trees(decls: Seq<Declaration>) -> Seq<DeclTree>
    decreases decls,
{
    Seq::new(
        decls.len(),
        |i: int|
            if 0 <= i < decls.len() {
                decl_tree(&decls[i])
            } else {
                arbitrary()
            },
    )
}

/// The tree of a function declaration.
pub open spec fn function_tree(f: &FunctionStmt) -> FunctionTree
    decreases f,
{
    FunctionTree {
        identifier: f.identifier@,
        parameters: tokens_view(f.parameters@),
        body: decl_trees(f.body@),
    }
}

/// The trees of a list of function declarations.
pub open spec fn function_trees(functions: Seq<FunctionStmt>) -> Seq<FunctionTree>
    decreases functions,
{
    Seq::new(
        functions.len(),
        |i: int|
            if 0 <= i < functions.len() {
                function_tree(&functions[i])
            } else {
                arbitrary()
            },
    )
}

impl View for Expr {
    type V = ExprTree;

    open spec fn view(&self) -> ExprTree {
        expr_tree(self)
    }
}

impl View for Stmt {
    type V = StmtTree;

    open spec fn view(&self) -> StmtTree {
        stmt_tree(self)
    }
}

impl View for Declaration {
    type V = DeclTree;

    open spec fn view(&self) -> DeclTree {
        decl_tree(self)
    }
}

impl View for ClassDecl {
    type V = ClassTree;

    open spec fn view(&self) -> ClassTree {
        class_tree(self)
    }
}

impl View for FunctionStmt {
    type V = FunctionTree;

    open spec fn view(&self) -> FunctionTree {
        function_tree(self)
    }
}

impl View for Program {
    type V = Seq<DeclTree>;

    open spec fn view(&self) -> Seq<DeclTree> {
        match self {
            Program::Declarations(decls) => decl_trees(decls@),
        }
    }
}


/// Whether all the ids of a set lie from `lo` up to, not including, `hi`.
pub open spec fn within(ids: Set<nat>, lo: nat, hi: nat) -> bool {
    forall|x: nat| ids.contains(x) ==> lo <= x < hi
}

/// The ids of an expression and of all the expressions in it.
pub open spec fn expr_ids(e: ExprTree) -> Set<nat>
    decreases e,
{
    match e.kind {
        ExprKindTree::Assign { expr, .. } => expr_ids(*expr).insert(e.id),
        ExprKindTree::Binary { left, right, .. } => expr_ids(*left).union(expr_ids(*right)).insert(
            e.id,
        ),
        ExprKindTree::Logical { left, right, .. } => expr_ids(*left).union(expr_ids(*right)).insert(
            e.id,
        ),
        ExprKindTree::Grouping { expr } => expr_ids(*expr).insert(e.id),
        ExprKindTree::Unary { right, .. } => expr_ids(*right).insert(e.id),
        ExprKindTree::Call { callee, args, .. } => expr_ids(*callee).union(
            exprs_ids(args, args.len()),
        ).insert(e.id),
        ExprKindTree::Get { object, .. } => expr_ids(*object).insert(e.id),
        ExprKindTree::Put { object, value, .. } => expr_ids(*object).union(expr_ids(*value)).insert(
            e.id,
        ),
        _ => Set::empty().insert(e.id),
    }
}

/// The ids of the first `n` expressions of a list.
pub open spec fn exprs_ids(es: Seq<ExprTree>, n: nat) -> Set<nat>
    decreases es, n,
{
    if n == 0 || n > es.len() {
        Set::empty()
    } else {
        exprs_ids(es, (n - 1) as nat).union(expr_ids(es[n - 1]))
    }
}

/// Whether no two expressions in `e`, `e` itself included, have the same
/// id.
pub open spec fn unique_ids(e: ExprTree) -> bool
    decreases e,
{
    match e.kind {
        ExprKindTree::Assign { expr, .. } => unique_ids(*expr) && !expr_ids(*expr).contains(e.id),
        ExprKindTree::Binary { left, right, .. } => unique_ids(*left) && unique_ids(*right)
            && expr_ids(*left).disjoint(expr_ids(*right)) && !expr_ids(*left).contains(e.id)
            && !expr_ids(*right).contains(e.id),
        ExprKindTree::Logical { left, right, .. } => unique_ids(*left) && unique_ids(*right)
            && expr_ids(*left).disjoint(expr_ids(*right)) && !expr_ids(*left).contains(e.id)
            && !expr_ids(*right).contains(e.id),
        ExprKindTree::Grouping { expr } => unique_ids(*expr) && !expr_ids(*expr).contains(e.id),
        ExprKindTree::Unary { right, .. } => unique_ids(*right) && !expr_ids(*right).contains(e.id),
        ExprKindTree::Call { callee, args, .. } => unique_ids(*callee) && unique_ids_list(
            args,
            args.len(),
        ) && expr_ids(*callee).disjoint(exprs_ids(args, args.len())) && !expr_ids(
            *callee,
        ).contains(e.id) && !exprs_ids(args, args.len()).contains(e.id),
        ExprKindTree::Get { object, .. } => unique_ids(*object) && !expr_ids(*object).contains(e.id),
        ExprKindTree::Put { object, value, .. } => unique_ids(*object) && unique_ids(*value)
            && expr_ids(*object).disjoint(expr_ids(*value)) && !expr_ids(*object).contains(e.id)
            && !expr_ids(*value).contains(e.id),
        _ => true,
    }
}

/// Whether no two expressions in the first `n` expressions of a list have
/// the same id.
pub open spec fn unique_ids_list(es: Seq<ExprTree>, n: nat) -> bool
    decreases es, n,
{
    if n == 0 || n > es.len() {
        true
    } else {
        unique_ids_list(es, (n - 1) as nat) && unique_ids(es[n - 1]) && exprs_ids(
            es,
            (n - 1) as nat,
        ).disjoint(expr_ids(es[n - 1]))
    }
}

/// What holds of the first expressions of a list holds of them within a
/// longer list.
pub proof fn lemma_exprs_prefix(es: Seq<ExprTree>, x: ExprTree, n: nat)
    requires
        n <= es.len(),
    ensures
        exprs_ids(es.push(x), n) == exprs_ids(es, n),
        unique_ids_list(es.push(x), n) == unique_ids_list(es, n),
    decreases n,
{
    if n > 0 {
        lemma_exprs_prefix(es, x, (n - 1) as nat);
        assert(es.push(x)[n - 1] == es[n - 1]);
    }
}

/// The ids of a list with one more expression.
pub proof fn lemma_exprs_push(es: Seq<ExprTree>, x: ExprTree)
    ensures
        exprs_ids(es.push(x), es.len() + 1) == exprs_ids(es, es.len()).union(expr_ids(x)),
        unique_ids_list(es.push(x), es.len() + 1) == (unique_ids_list(es, es.len()) && unique_ids(x)
            && exprs_ids(es, es.len()).disjoint(expr_ids(x))),
{
    lemma_exprs_prefix(es, x, es.len());
    assert(es.push(x)[es.len() as int] == x);
}

/// Whether the expressions in `e` have ids of their own, all from `lo` up
/// to, not including, `hi`.
pub open spec fn numbered(e: ExprTree, lo: nat, hi: nat) -> bool {
    within(expr_ids(e), lo, hi) && unique_ids(e)
}

/// Whether the expressions in the first `n` expressions of a list have ids
/// of their own, all from `lo` up to, not including, `hi`.
pub open spec fn numbered_list(es: Seq<ExprTree>, n: nat, lo: nat, hi: nat) -> bool {
    within(exprs_ids(es, n), lo, hi) && unique_ids_list(es, n)
}

/// The ids of the expressions in a statement.
pub open spec fn stmt_ids(s: StmtTree) -> Set<nat>
    decreases s,
{
    match s {
        StmtTree::Expr(e) => expr_ids(e),
        StmtTree::Print(e) => expr_ids(e),
        StmtTree::Return { value } => match value {
            Some(e) => expr_ids(e),
            None => Set::empty(),
        },
        StmtTree::FunctionDecl(f) => decls_ids(f.body, f.body.len()),
        StmtTree::ClassDecl(c) => match c.superclass {
            Some(e) => expr_ids(e).union(functions_ids(c.methods, c.methods.len())),
            None => functions_ids(c.methods, c.methods.len()),
        },
        StmtTree::If { condition, then_branch, else_branch } => match else_branch {
            Some(other) => expr_ids(condition).union(stmt_ids(*then_branch)).union(stmt_ids(*other)),
            None => expr_ids(condition).union(stmt_ids(*then_branch)),
        },
        StmtTree::While { condition, body } => expr_ids(condition).union(stmt_ids(*body)),
        StmtTree::Block(decls) => decls_ids(decls, decls.len()),
    }
}

/// The ids of the expressions in a declaration.
pub open spec fn decl_ids(d: DeclTree) -> Set<nat>
    decreases d,
{
    match d {
        DeclTree::Var { expression, .. } => expr_ids(expression),
        DeclTree::Statement(s) => stmt_ids(s),
    }
}

/// The ids of the expressions in the first `n` declarations of a list.
pub open spec fn decls_ids(ds: Seq<DeclTree>, n: nat) -> Set<nat>
    decreases ds, n,
{
    if n == 0 || n > ds.len() {
        Set::empty()
    } else {
        decls_ids(ds, (n - 1) as nat).union(decl_ids(ds[n - 1]))
    }
}

/// The ids of the expressions in the first `n` functions of a list.
pub open spec fn functions_ids(fs: Seq<FunctionTree>, n: nat) -> Set<nat>
    decreases fs, n,
{
    if n == 0 || n > fs.len() {
        Set::empty()
    } else {
        functions_ids(fs, (n - 1) as nat).union(decls_ids(fs[n - 1].body, fs[n - 1].body.len()))
    }
}

/// Whether no two expressions in a statement have the same id.
pub open spec fn unique_stmt(s: StmtTree) -> bool
    decreases s,
{
    match s {
        StmtTree::Expr(e) => unique_ids(e),
        StmtTree::Print(e) => unique_ids(e),
        StmtTree::Return { value } => match value {
            Some(e) => unique_ids(e),
            None => true,
        },
        StmtTree::FunctionDecl(f) => unique_decls(f.body, f.body.len()),
        StmtTree::ClassDecl(c) => unique_functions(c.methods, c.methods.len()) && match c.superclass {
            Some(e) => unique_ids(e) && expr_ids(e).disjoint(
                functions_ids(c.methods, c.methods.len()),
            ),
            None => true,
        },
        StmtTree::If { condition, then_branch, else_branch } => unique_ids(condition)
            && unique_stmt(*then_branch) && expr_ids(condition).disjoint(stmt_ids(*then_branch))
            && match else_branch {
            Some(other) => unique_stmt(*other) && expr_ids(condition).union(
                stmt_ids(*then_branch),
            ).disjoint(stmt_ids(*other)),
            None => true,
        },
        StmtTree::While { condition, body } => unique_ids(condition) && unique_stmt(*body)
            && expr_ids(condition).disjoint(stmt_ids(*body)),
        StmtTree::Block(decls) => unique_decls(decls, decls.len()),
    }
}

/// Whether no two expressions in a declaration have the same id.
pub open spec fn unique_decl(d: DeclTree) -> bool
    decreases d,
{
    match d {
        DeclTree::Var { expression, .. } => unique_ids(expression),
        DeclTree::Statement(s) => unique_stmt(s),
    }
}

/// Whether no two expressions in the first `n` declarations of a list have
/// the same id.
pub open spec fn unique_decls(ds: Seq<DeclTree>, n: nat) -> bool
    decreases ds, n,
{
    if n == 0 || n > ds.len() {
        true
    } else {
        unique_decls(ds, (n - 1) as nat) && unique_decl(ds[n - 1]) && decls_ids(
            ds,
            (n - 1) as nat,
        ).disjoint(decl_ids(ds[n - 1]))
    }
}

/// Whether no two expressions in the first `n` functions of a list have
/// the same id.
pub open spec fn unique_functions(fs: Seq<FunctionTree>, n: nat) -> bool
    decreases fs, n,
{
    if n == 0 || n > fs.len() {
        true
    } else {
        unique_functions(fs, (n - 1) as nat) && unique_decls(fs[n - 1].body, fs[n - 1].body.len())
            && functions_ids(fs, (n - 1) as nat).disjoint(
            decls_ids(fs[n - 1].body, fs[n - 1].body.len()),
        )
    }
}

/// Whether the expressions in a statement have ids of their own, all from
/// `lo` up to, not including, `hi`.
pub open spec fn numbered_stmt(s: StmtTree, lo: nat, hi: nat) -> bool {
    within(stmt_ids(s), lo, hi) && unique_stmt(s)
}

/// Whether the expressions in a declaration have ids of their own, all
/// from `lo` up to, not including, `hi`.
pub open spec fn numbered_decl(d: DeclTree, lo: nat, hi: nat) -> bool {
    within(decl_ids(d), lo, hi) && unique_decl(d)
}

/// Whether the expressions in a list of declarations have ids of their
/// own, all from `lo` up to, not including, `hi`.
pub open spec fn numbered_decls(ds: Seq<DeclTree>, lo: nat, hi: nat) -> bool {
    within(decls_ids(ds, ds.len()), lo, hi) && unique_decls(ds, ds.len())
}

/// Whether the expressions in a list of functions have ids of their own,
/// all from `lo` up to, not including, `hi`.
pub open spec fn numbered_functions(fs: Seq<FunctionTree>, lo: nat, hi: nat) -> bool {
    within(functions_ids(fs, fs.len()), lo, hi) && unique_functions(fs, fs.len())
}

/// What holds of the first declarations of a list holds of them within a
/// longer list.
pub proof fn lemma_decls_prefix(ds: Seq<DeclTree>, x: DeclTree, n: nat)
    requires
        n <= ds.len(),
    ensures
        decls_ids(ds.push(x), n) == decls_ids(ds, n),
        unique_decls(ds.push(x), n) == unique_decls(ds, n),
    decreases n,
{
    if n > 0 {
        lemma_decls_prefix(ds, x, (n - 1) as nat);
        assert(ds.push(x)[n - 1] == ds[n - 1]);
    }
}

/// The ids of a list with one more declaration.
pub proof fn lemma_decls_push(ds: Seq<DeclTree>, x: DeclTree)
    ensures
        decls_ids(ds.push(x), ds.len() + 1) == decls_ids(ds, ds.len()).union(decl_ids(x)),
        unique_decls(ds.push(x), ds.len() + 1) == (unique_decls(ds, ds.len()) && unique_decl(x)
            && decls_ids(ds, ds.len()).disjoint(decl_ids(x))),
{
    lemma_decls_prefix(ds, x, ds.len());
    assert(ds.push(x)[ds.len() as int] == x);
}

/// What holds of the first functions of a list holds of them within a
/// longer list.
pub proof fn lemma_functions_prefix(fs: Seq<FunctionTree>, x: FunctionTree, n: nat)
    requires
        n <= fs.len(),
    ensures
        functions_ids(fs.push(x), n) == functions_ids(fs, n),
        unique_functions(fs.push(x), n) == unique_functions(fs, n),
    decreases n,
{
    if n > 0 {
        lemma_functions_prefix(fs, x, (n - 1) as nat);
        assert(fs.push(x)[n - 1] == fs[n - 1]);
    }
}

/// The ids of a list with one more function.
pub proof fn lemma_functions_push(fs: Seq<FunctionTree>, x: FunctionTree)
    ensures
        functions_ids(fs.push(x), fs.len() + 1) == functions_ids(fs, fs.len()).union(
            decls_ids(x.body, x.body.len()),
        ),
        unique_functions(fs.push(x), fs.len() + 1) == (unique_functions(fs, fs.len())
            && unique_decls(x.body, x.body.len()) && functions_ids(fs, fs.len()).disjoint(
            decls_ids(x.body, x.body.len()),
        )),
{
    lemma_functions_prefix(fs, x, fs.len());
    assert(fs.push(x)[fs.len() as int] == x);
}

/// The text of a literal: a text and a number as they were written.
pub open spec fn literal_text(value: LiteralView) -> Seq<char> {
    match value {
        LiteralView::String(s) => s,
        LiteralView::Number(s) => s,
        LiteralView::Boolean(b) => if b {
            "true"@
        } else {
            "false"@
        },
        LiteralView::Null => "null"@,
    }
}

/// An expression written out, without any blank.
pub open spec fn expr_text(e: ExprTree) -> Seq<char>
    decreases e,
{
    match e.kind {
        ExprKindTree::Binary { left, op, right } => expr_text(*left) + op.lexeme + expr_text(*right),
        ExprKindTree::Logical { left, op, right } => expr_text(*left) + op.lexeme + expr_text(
            *right,
        ),
        ExprKindTree::Grouping { expr } => "("@ + expr_text(*expr) + ")"@,
        ExprKindTree::Literal { value } => literal_text(value),
        ExprKindTree::Unary { op, right } => op.lexeme + expr_text(*right),
        ExprKindTree::Var { name } => name,
        ExprKindTree::Assign { name, expr } => name + "="@ + expr_text(*expr),
        ExprKindTree::Call { callee, args, .. } => expr_text(*callee) + "("@ + args_text(
            args,
            args.len(),
        ) + ")"@,
        ExprKindTree::Get { name, object } => expr_text(*object) + "."@ + name,
        ExprKindTree::Put { object, name, value } => expr_text(*object) + "."@ + name + "="@
            + expr_text(*value),
        ExprKindTree::This { .. } => "this"@,
        ExprKindTree::Super { method, .. } => "super."@ + method,
    }
}

/// The first `n` arguments of a call written out, separated by commas.
pub open spec fn args_text(args: Seq<ExprTree>, n: nat) -> Seq<char>
    decreases args, n,
{
    if n == 0 || n > args.len() {
        Seq::empty()
    } else if n == 1 {
        expr_text(args[0])
    } else {
        args_text(args, (n - 1) as nat) + ","@ + expr_text(args[n - 1])
    }
}

impl Expr {
    /// The expression written out, without any blank: operands around
    /// their operator, arguments in parentheses and separated by commas.
    pub fn to_text(&self) -> (text: String)
        ensures
            text@ == expr_text(self@),
        decreases self,
    {
        match &self.kind {
            ExprKind::Binary { left, op, right } => {
                let mut text = left.to_text();
                text.append(op.lexeme.as_str());
                text.append(right.to_text().as_str());
                text
            },
            ExprKind::Logical { left, op, right } => {
                let mut text = left.to_text();
                text.append(op.lexeme.as_str());
                text.append(right.to_text().as_str());
                text
            },
            ExprKind::Grouping { expr } => {
                let mut text = String::from_str("(");
                text.append(expr.to_text().as_str());
                text.append(")");
                text
            },
            ExprKind::Literal { value } => {
                match value {
                    Literal::String(s) => s.clone(),
                    Literal::Number(s) => s.clone(),
                    Literal::Boolean(b) => if *b {
                        String::from_str("true")
                    } else {
                        String::from_str("false")
                    },
                    Literal::Null => String::from_str("null"),
                }
            },
            ExprKind::Unary { op, right } => {
                let mut text = op.lexeme.clone();
                text.append(right.to_text().as_str());
                text
            },
            ExprKind::Var { name } => name.clone().0,
            ExprKind::Assign { name, expr } => {
                let mut text = name.clone().0;
                text.append("=");
                text.append(expr.to_text().as_str());
                text
            },
            ExprKind::Call { callee, args, .. } => {
                let mut text = callee.to_text();
                text.append("(");
                let ghost head = text@;
                let ghost trees = expr_trees(args@);
                let mut i: usize = 0;
                while i < args.len()
                    invariant
                        i <= args@.len(),
                        self.kind is Call,
                        self.kind->Call_args == *args,
                        trees == expr_trees(args@),
                        text@ == head + args_text(trees, i as nat),
                    decreases args@.len() - i,
                {
                    proof {
                        assert(decreases_to!(self => self.kind));
                        assert(decreases_to!(self.kind => self.kind->Call_args));
                        assert(decreases_to!(*args => args@));
                        assert(decreases_to!(args@ => args@[i as int]));
                    }
                    if i > 0 {
                        text.append(",");
                    }
                    text.append(args[i].to_text().as_str());
                    proof {
                        assert(trees[i as int] == args@[i as int]@);
                        if i == 0 {
                            assert(args_text(trees, 0) =~= Seq::empty());
                            assert(text@ =~= head + args_text(trees, 1));
                        } else {
                            assert(text@ =~= head + args_text(trees, (i + 1) as nat));
                        }
                    }
                    i += 1;
                }
                text.append(")");
                text
            },
            ExprKind::Get { name, object } => {
                let mut text = object.to_text();
                text.append(".");
                text.append(name.as_str());
                text
            },
            ExprKind::Put { object, name, value } => {
                let mut text = object.to_text();
                text.append(".");
                text.append(name.as_str());
                text.append("=");
                text.append(value.to_text().as_str());
                text
            },
            ExprKind::This { .. } => String::from_str("this"),
            ExprKind::Super { method, .. } => {
                let mut text = String::from_str("super.");
                text.append(method.as_str());
                text
            },
        }
    }
}

/// The result of a parsing step with its value as a tree.
pub open spec fn viewed<T: View>(result: Result<T, SyntaxError>) -> Result<T::V, SyntaxError> {
    match result {
        Ok(value) => Ok(value@),
        Err(e) => Err(e),
    }
}

/// The result of a parsing step that reads a list of expressions.
pub open spec fn viewed_exprs(result: Result<Vec<Expr>, SyntaxError>) -> Result<
    Seq<ExprTree>,
    SyntaxError,
> {
    match result {
        Ok(list) => Ok(expr_trees(list@)),
        Err(e) => Err(e),
    }
}

/// The result of a parsing step that reads a list of declarations.
pub open spec fn viewed_decls(result: Result<Vec<Declaration>, SyntaxError>) -> Result<
    Seq<DeclTree>,
    SyntaxError,
> {
    match result {
        Ok(list) => Ok(decl_trees(list@)),
        Err(e) => Err(e),
    }
}

impl Level {
    /// Whether a token of type `typ` is an operator of this level.
    pub fn accepts(&self, typ: TokenType) -> (r: bool)
        ensures
            r == self.has(typ),
    {
        match self {
            Level::Equality => typ == TokenType::BangEqual || typ == TokenType::EqualEqual,
            Level::Comparison => typ == TokenType::Greater || typ == TokenType::GreaterEqual || typ
                == TokenType::Less || typ == TokenType::LessEqual,
            Level::Term => typ == TokenType::Minus || typ == TokenType::Plus,
            Level::Factor => typ == TokenType::Slash || typ == TokenType::Star,
        }
    }
}

/// The tree of a declaration that may be missing.
pub open spec fn optional_decl(d: Option<Declaration>) -> Option<DeclTree> {
    match d {
        Some(decl) => Some(decl@),
        None => None,
    }
}

/// The tree of an expression that may be missing.
pub open spec fn optional_expr(e: Option<Expr>) -> Option<ExprTree> {
    match e {
        Some(expr) => Some(expr@),
        None => None,
    }
}

/// Builds the loop that a `for` statement stands for. `always` is the
/// condition used when the statement has none.
#[verifier::spinoff_prover]
fn desugar_for(
    initializer: Option<Declaration>,
    condition: Option<Expr>,
    increment: Option<Expr>,
    body: Stmt,
    always: Expr,
    bounds: Ghost<(nat, nat, nat, nat)>,
) -> (looped: Stmt)
    requires
        always@ == grammar::literal(always.id as nat, LiteralView::Boolean(true)),
        bounds@.0 <= bounds@.1 <= bounds@.2 <= bounds@.3 <= always.id,
        initializer matches Some(first) ==> numbered_decl(first@, bounds@.0, bounds@.1),
        condition matches Some(test) ==> numbered(test@, bounds@.1, bounds@.2),
        increment matches Some(step) ==> numbered(step@, bounds@.2, bounds@.3),
        numbered_stmt(body@, bounds@.3, always.id as nat),
    ensures
        looped@ == grammar::for_loop(
            optional_decl(initializer),
            optional_expr(condition),
            optional_expr(increment),
            body@,
            always.id as nat,
        ),
        numbered_stmt(looped@, bounds@.0, (always.id + 1) as nat),
{
    let ghost body_tree = body@;
    let ghost step_tree = optional_expr(increment);
    let ghost condition_tree = optional_expr(condition);
    let ghost first_tree = optional_decl(initializer);
    let ghost id = always.id as nat;
    let stepped = match increment {
        Some(step) => {
            let both = vec![Declaration::Statement(body), Declaration::Statement(Stmt::Expr(step))];
            assert(decl_trees(both@) =~= seq![
                DeclTree::Statement(body_tree),
                DeclTree::Statement(StmtTree::Expr(step_tree->0)),
            ]);
            Stmt::Block(both)
        },
        None => body,
    };
    let ghost stepped_tree = stepped@;
    assert(stepped_tree == match step_tree {
        Some(step) => StmtTree::Block(
            seq![DeclTree::Statement(body_tree), DeclTree::Statement(StmtTree::Expr(step))],
        ),
        None => body_tree,
    });
    let test = match condition {
        Some(c) => c,
        None => always,
    };
    let ghost test_tree = test@;
    assert(test_tree == match condition_tree {
        Some(c) => c,
        None => grammar::literal(id, LiteralView::Boolean(true)),
    });
    let looped = Stmt::While { condition: test, body: Box::new(stepped) };
    let ghost looped_tree = looped@;
    assert(looped_tree == StmtTree::While { condition: test_tree, body: Box::new(stepped_tree) });
    proof {
        let (a, b, c, d) = bounds@;
        match step_tree {
            Some(step) => {
                let pair = seq![
                    DeclTree::Statement(body_tree),
                    DeclTree::Statement(StmtTree::Expr(step)),
                ];
                lemma_decls_pair(DeclTree::Statement(body_tree), DeclTree::Statement(StmtTree::Expr(step)));
                assert(stmt_ids(stepped_tree) == decls_ids(pair, 2));
            },
            None => {},
        }
        assert(numbered_stmt(stepped_tree, c, id));
        assert(numbered(test_tree, b, id + 1));
        assert(expr_ids(test_tree).disjoint(stmt_ids(stepped_tree)));
        assert(numbered_stmt(looped_tree, b, id + 1));
    }
    match initializer {
        Some(first) => {
            let both = vec![first, Declaration::Statement(looped)];
            assert(decl_trees(both@) =~= seq![first_tree->0, DeclTree::Statement(looped_tree)]);
            let all = Stmt::Block(both);
            assert(all@ == StmtTree::Block(seq![first_tree->0, DeclTree::Statement(looped_tree)]));
            proof {
                lemma_decls_pair(first_tree->0, DeclTree::Statement(looped_tree));
            }
            all
        },
        None => looped,
    }
}

/// The ids of a list of two declarations.
pub proof fn lemma_decls_pair(x: DeclTree, y: DeclTree)
    ensures
        decls_ids(seq![x, y], 2) == decl_ids(x).union(decl_ids(y)),
        unique_decls(seq![x, y], 2) == (unique_decl(x) && unique_decl(y) && decl_ids(x).disjoint(
            decl_ids(y),
        )),
{
    let one = Seq::<DeclTree>::empty().push(x);
    lemma_decls_push(Seq::<DeclTree>::empty(), x);
    lemma_decls_push(one, y);
    assert(seq![x, y] =~= one.push(y));
    assert(decls_ids(Seq::<DeclTree>::empty(), 0) =~= Set::empty());
    assert(decls_ids(one, 1) =~= decl_ids(x));
}

/// Reads a program from a list of tokens.
pub struct Parser {
    pub tokens: Vec<Token>,
    /// Number of tokens read.
    pub position: usize,
    /// The next unused expression id.
    pub expr_counter: u64,
}

impl Parser {
    /// The tokens not read yet.
    pub open spec fn rest(&self) -> Input {
        Input { tokens: tokens_view(self.tokens@), pos: self.position as nat }
    }

    /// The next unused expression id.
    pub open spec fn counter(&self) -> nat {
        self.expr_counter as nat
    }

    /// No more ids were handed out than tokens were read.
    pub open spec fn wf(&self) -> bool {
        &&& self.position <= self.tokens@.len()
        &&& self.expr_counter <= self.position
    }

    /// Whether the parser, having been in state `before`, did what the
    /// grammar says: on success `result` is the tree that `outcome` tells,
    /// the tokens it counts were read and the ids it counts handed out; on
    /// failure `result` is the error that `outcome` tells.
    pub open spec fn follows<V>(
        &self,
        before: &Parser,
        outcome: Result<Parsed<V>, SyntaxError>,
        result: Result<V, SyntaxError>,
    ) -> bool {
        &&& self.tokens == before.tokens
        &&& self.wf()
        &&& match outcome {
            Ok(parsed) => {
                &&& result == Ok::<V, SyntaxError>(parsed.value)
                &&& self.position == before.position + parsed.used
                &&& self.expr_counter == parsed.counter
                &&& self.position - self.expr_counter >= before.position - before.expr_counter
            },
            Err(e) => result == Err::<V, SyntaxError>(e),
        }
    }

    /// A parser at the start of `tokens`.
    pub fn new(tokens: Vec<Token>) -> (parser: Self)
        ensures
            parser.tokens == tokens,
            parser.position == 0,
            parser.expr_counter == 0,
            parser.wf(),
    {
        Parser { tokens, position: 0, expr_counter: 0 }
    }

    /// Hands out the next expression id: the ids that one parser hands out
    /// count up from the counter it started with. No token is read. The
    /// parser stays well formed if an id was still owed to a token read.
    fn get_expr_id(&mut self) -> (id: u64)
        requires
            old(self).expr_counter < u64::MAX,
        ensures
            id == old(self).expr_counter,
            final(self).expr_counter == old(self).expr_counter + 1,
            final(self).tokens == old(self).tokens,
            final(self).position == old(self).position,
            old(self).wf() && old(self).expr_counter < old(self).position ==> final(self).wf(),
    {
        let old = self.expr_counter;
        self.expr_counter = self.expr_counter + 1;
        old
    }

    /// Whether the next token is of type `typ`.
    fn peek_is(&self, typ: TokenType) -> (r: bool)
        requires
            self.wf(),
        ensures
            r == starts(self.rest(), typ),
            r ==> self.position < self.tokens@.len(),
    {
        self.position < self.tokens.len() && self.tokens[self.position].typ == typ
    }

    /// Whether the token after the next is of type `typ`.
    fn peek_second_is(&self, typ: TokenType) -> (r: bool)
        requires
            self.wf(),
            self.position < self.tokens@.len(),
        ensures
            r == starts(after(self.rest(), 1), typ),
            r ==> self.position + 1 < self.tokens@.len(),
    {
        assert(self.position < self.tokens.len());
        self.position + 1 < self.tokens.len() && self.tokens[self.position + 1].typ == typ
    }

    /// Reads the next token.
    fn take(&mut self) -> (token: Token)
        requires
            old(self).wf(),
            old(self).position < old(self).tokens@.len(),
        ensures
            token@ == old(self).rest().at(0),
            token == old(self).tokens@[old(self).position as int],
            final(self).tokens == old(self).tokens,
            final(self).position == old(self).position + 1,
            final(self).expr_counter == old(self).expr_counter,
            final(self).rest() == after(old(self).rest(), 1),
            final(self).wf(),
    {
        assert(self.position < self.tokens.len());
        let token = self.tokens[self.position].clone();
        self.position = self.position + 1;
        token
    }

    /// Whether the next token is of one of `types`.
    pub fn peek_matches(&self, types: &[TokenType]) -> (r: bool)
        requires
            self.wf(),
        ensures
            r == (self.rest().left() > 0 && types@.contains(self.rest().at(0).typ)),
    {
        if self.position >= self.tokens.len() {
            return false;
        }
        let typ = self.tokens[self.position].typ;
        let mut i: usize = 0;
        while i < types.len()
            invariant
                i <= types@.len(),
                forall|j: int| 0 <= j < i ==> types@[j] != typ,
                self.position < self.tokens@.len(),
                typ == self.tokens@[self.position as int].typ,
            decreases types@.len() - i,
        {
            if types[i] == typ {
                assert(types@[i as int] == typ);
                return true;
            }
            i += 1;
        }
        false
    }

    /// Reads the next token if it is of one of `types`.
    pub fn matches(&mut self, types: &[TokenType]) -> (token: Option<Token>)
        requires
            old(self).wf(),
        ensures
            final(self).wf(),
            final(self).tokens == old(self).tokens,
            final(self).expr_counter == old(self).expr_counter,
            token is Some == (old(self).rest().left() > 0 && types@.contains(
                old(self).rest().at(0).typ,
            )),
            token matches Some(t) ==> t@ == old(self).rest().at(0) && final(self).position == old(
                self,
            ).position + 1,
            token is None ==> final(self).position == old(self).position,
    {
        if self.peek_matches(types) {
            Some(self.take())
        } else {
            None
        }
    }

    fn leaf(&mut self, kind: ExprKind) -> (expr: Expr)
        requires
            old(self).wf(),
            old(self).expr_counter < old(self).position,
        ensures
            expr.id == old(self).expr_counter,
            expr.kind == kind,
            final(self).expr_counter == old(self).expr_counter + 1,
            final(self).tokens == old(self).tokens,
            final(self).position == old(self).position,
            final(self).wf(),
    {
        Expr { id: self.get_expr_id(), kind }
    }

    #[verifier::spinoff_prover]
    fn primary(&mut self) -> (result: Result<Expr, SyntaxError>)
        requires
            old(self).wf(),
        ensures
            final(self).follows(
                old(self),
                grammar::primary(old(self).rest(), old(self).counter()),
                viewed(result),
            ),
            !(result matches Err(SyntaxError::Stuck)),
            result is Ok ==> final(self).position > old(self).position,
            final(self).expr_counter >= old(self).expr_counter,
            result matches Ok(e) ==> numbered(e@, old(self).counter(), final(self).counter()),
        decreases old(self).tokens@.len() - old(self).position, 0nat,
    {
        proof {
            reveal(grammar::primary);
        }
        if self.position >= self.tokens.len() {
            return Err(SyntaxError::UnexpectedEnd);
        }
        let token = self.take();
        match token.typ {
            TokenType::False => Ok(
                self.leaf(ExprKind::Literal { value: Literal::Boolean(false) }),
            ),
            TokenType::True => Ok(self.leaf(ExprKind::Literal { value: Literal::Boolean(true) })),
            TokenType::Nil => Ok(self.leaf(ExprKind::Literal { value: Literal::Null })),
            TokenType::Number => Ok(
                self.leaf(ExprKind::Literal { value: Literal::Number(token.lexeme) }),
            ),
            TokenType::String => Ok(
                self.leaf(ExprKind::Literal { value: Literal::String(token.lexeme) }),
            ),
            TokenType::Identifier => Ok(
                self.leaf(ExprKind::Var { name: Identifier(token.lexeme) }),
            ),
            TokenType::This => Ok(self.leaf(ExprKind::This { token: Identifier(token.lexeme) })),
            TokenType::Super => {
                if self.peek_is(TokenType::Dot) && self.peek_second_is(TokenType::Identifier) {
                    let _ = self.take();
                    let method = self.take();
                    Ok(
                        self.leaf(
                            ExprKind::Super {
                                token: Identifier(token.lexeme),
                                method: Identifier(method.lexeme),
                            },
                        ),
                    )
                } else {
                    Err(SyntaxError::ExpectedSuperclassMethod)
                }
            },
            TokenType::LeftParen => {
                let inner = match self.expression() {
                    Ok(e) => e,
                    Err(e) => {
                        return Err(e);
                    },
                };
                if !self.peek_is(TokenType::RightParen) {
                    return Err(SyntaxError::ExpectedRightParen);
                }
                let _ = self.take();
                Ok(self.leaf(ExprKind::Grouping { expr: Box::new(inner) }))
            },
            _ => Err(SyntaxError::UnexpectedToken),
        }
    }

    #[verifier::spinoff_prover]
    fn arguments(&mut self) -> (result: Result<Vec<Expr>, SyntaxError>)
        requires
            old(self).wf(),
        ensures
            final(self).follows(
                old(self),
                grammar::arguments(
                    old(self).rest(),
                    old(self).counter(),
                    Seq::empty(),
                    0,
                ),
                viewed_exprs(result),
            ),
            !(result matches Err(SyntaxError::Stuck)),
            final(self).expr_counter >= old(self).expr_counter,
            result matches Ok(list) ==> numbered_list(
                expr_trees(list@),
                list@.len() as nat,
                old(self).counter(),
                final(self).counter(),
            ),
        decreases old(self).tokens@.len() - old(self).position, 19nat,
    {
        proof {
            reveal(grammar::arguments);
        }
        let mut args: Vec<Expr> = Vec::new();
        assert(expr_trees(args@) =~= Seq::empty());
        loop
            invariant
                self.expr_counter >= old(self).expr_counter,
                numbered_list(expr_trees(args@), args@.len() as nat, old(self).counter(), self.counter()),
                self.wf(),
                self.tokens == old(self).tokens,
                self.position >= old(self).position,
                self.position - self.expr_counter >= old(self).position - old(self).expr_counter,
                grammar::arguments(
                    old(self).rest(),
                    old(self).counter(),
                    Seq::empty(),
                    0,
                ) == grammar::arguments(
                    self.rest(),
                    self.counter(),
                    expr_trees(args@),
                    (self.position - old(self).position) as nat,
                ),
            decreases self.tokens@.len() - self.position,
        {
            proof {
                reveal(grammar::arguments);
            }
            let ghost found = expr_trees(args@);
            let arg = match self.expression() {
                Ok(e) => e,
                Err(e) => {
                    return Err(e);
                },
            };
            args.push(arg);
            assert(expr_trees(args@) =~= found.push(arg@));
            proof {
                lemma_exprs_push(found, arg@);
            }
            if self.peek_is(TokenType::Comma) {
                let _ = self.take();
            } else {
                return Ok(args);
            }
        }
    }

    #[verifier::spinoff_prover]
    fn finish_call(&mut self, callee: Expr) -> (result: Result<Expr, SyntaxError>)
        requires
            old(self).wf(),
            old(self).expr_counter < old(self).position,
        ensures
            final(self).follows(
                old(self),
                grammar::finish_call(old(self).rest(), old(self).counter(), callee@),
                viewed(result),
            ),
            !(result matches Err(SyntaxError::Stuck)),
            final(self).expr_counter >= old(self).expr_counter,
            result matches Ok(e) ==> within(
                expr_ids(e@).difference(expr_ids(callee@)),
                old(self).counter(),
                final(self).counter(),
            ),
            result matches Ok(e) ==> (unique_ids(callee@) && within(
                expr_ids(callee@),
                0,
                old(self).counter(),
            ) ==> unique_ids(e@)),
        decreases old(self).tokens@.len() - old(self).position, 20nat,
    {
        proof {
            reveal(grammar::finish_call);
        }
        let args = if self.peek_is(TokenType::RightParen) {
            let none: Vec<Expr> = Vec::new();
            assert(expr_trees(none@) =~= Seq::empty());
            none
        } else {
            match self.arguments() {
                Ok(list) => list,
                Err(e) => {
                    return Err(e);
                },
            }
        };
        assert(numbered_list(
            expr_trees(args@),
            args@.len() as nat,
            old(self).counter(),
            self.counter(),
        ));
        if args.len() > 255 {
            return Err(SyntaxError::TooManyArguments);
        }
        if !self.peek_is(TokenType::RightParen) {
            return Err(SyntaxError::ExpectedRightParen);
        }
        let parens = self.take();
        let ghost called = callee@;
        let ghost listed = expr_trees(args@);
        let expr = self.leaf(ExprKind::Call { callee: Box::new(callee), parens, args });
        proof {
            assert(expr@.kind->Call_args =~= listed);
            assert(expr_ids(expr@) == expr_ids(called).union(exprs_ids(listed, listed.len())).insert(
                expr.id as nat,
            ));
            assert forall|x: nat| #[trigger]
                expr_ids(expr@).difference(expr_ids(called)).contains(x) implies old(
                self,
            ).expr_counter <= x < self.expr_counter by {
                if x != expr.id {
                    assert(exprs_ids(listed, listed.len()).contains(x));
                }
            }
            if unique_ids(called) && within(expr_ids(called), 0, old(self).counter()) {
                assert(expr_ids(called).disjoint(exprs_ids(listed, listed.len())));
                assert(!expr_ids(called).contains(expr.id as nat));
                assert(!exprs_ids(listed, listed.len()).contains(expr.id as nat));
                assert(unique_ids_list(listed, listed.len()));
                assert(unique_ids(expr@));
            }
        }
        Ok(expr)
    }

    #[verifier::spinoff_prover]
    fn call(&mut self) -> (result: Result<Expr, SyntaxError>)
        requires
            old(self).wf(),
        ensures
            final(self).follows(
                old(self),
                grammar::call(old(self).rest(), old(self).counter()),
                viewed(result),
            ),
            !(result matches Err(SyntaxError::Stuck)),
            result is Ok ==> final(self).position > old(self).position,
            final(self).expr_counter >= old(self).expr_counter,
            result matches Ok(e) ==> numbered(e@, old(self).counter(), final(self).counter()),
        decreases old(self).tokens@.len() - old(self).position, 2nat,
    {
        proof {
            reveal(grammar::call);
            reveal(grammar::call_rest);
        }
        let mut expr = match self.primary() {
            Ok(e) => e,
            Err(e) => {
                return Err(e);
            },
        };
        loop
            invariant
                self.expr_counter >= old(self).expr_counter,
                numbered(expr@, old(self).counter(), self.counter()),
                self.wf(),
                self.tokens == old(self).tokens,
                self.position > old(self).position,
                self.position >= old(self).position,
                self.position - self.expr_counter >= old(self).position - old(self).expr_counter,
                grammar::call(old(self).rest(), old(self).counter())
                    == grammar::call_rest(
                    self.rest(),
                    self.counter(),
                    expr@,
                    (self.position - old(self).position) as nat,
                ),
            decreases self.tokens@.len() - self.position,
        {
            proof {
                reveal(grammar::call_rest);
            }
            if self.peek_is(TokenType::LeftParen) {
                let _ = self.take();
                let ghost callee = expr@;
                expr = match self.finish_call(expr) {
                    Ok(e) => e,
                    Err(e) => {
                        return Err(e);
                    },
                };
                proof {
                    assert forall|x: nat| expr_ids(expr@).contains(x) implies old(
                        self,
                    ).expr_counter <= x < self.expr_counter by {
                        if !expr_ids(callee).contains(x) {
                            assert(expr_ids(expr@).difference(expr_ids(callee)).contains(x));
                        }
                    }
                }
            } else if self.peek_is(TokenType::Dot) {
                let _ = self.take();
                if !self.peek_is(TokenType::Identifier) {
                    return Err(SyntaxError::ExpectedPropertyName);
                }
                let name = self.take();
                expr = self.leaf(
                    ExprKind::Get { name: Identifier(name.lexeme), object: Box::new(expr) },
                );
            } else {
                return Ok(expr);
            }
        }
    }

    #[verifier::spinoff_prover]
    fn unary(&mut self) -> (result: Result<Expr, SyntaxError>)
        requires
            old(self).wf(),
        ensures
            final(self).follows(
                old(self),
                grammar::unary(old(self).rest(), old(self).counter()),
                viewed(result),
            ),
            !(result matches Err(SyntaxError::Stuck)),
            result is Ok ==> final(self).position > old(self).position,
            final(self).expr_counter >= old(self).expr_counter,
            result matches Ok(e) ==> numbered(e@, old(self).counter(), final(self).counter()),
        decreases old(self).tokens@.len() - old(self).position, 3nat,
    {
        proof {
            reveal(grammar::unary);
        }
        if self.peek_is(TokenType::Bang) || self.peek_is(TokenType::Minus) {
            let op = self.take();
            let id = self.get_expr_id();
            let right = match self.unary() {
                Ok(e) => e,
                Err(e) => {
                    return Err(e);
                },
            };
            Ok(Expr { id, kind: ExprKind::Unary { op, right: Box::new(right) } })
        } else {
            self.call()
        }
    }

    #[verifier::spinoff_prover]
    fn operand(&mut self, level: Level) -> (result: Result<Expr, SyntaxError>)
        requires
            old(self).wf(),
        ensures
            final(self).follows(
                old(self),
                grammar::operand(level, old(self).rest(), old(self).counter()),
                viewed(result),
            ),
            !(result matches Err(SyntaxError::Stuck)),
            result is Ok ==> final(self).position > old(self).position,
            final(self).expr_counter >= old(self).expr_counter,
            result matches Ok(e) ==> numbered(e@, old(self).counter(), final(self).counter()),
        decreases old(self).tokens@.len() - old(self).position, level.rank() - 1,
    {
        proof {
            reveal(grammar::operand);
        }
        match level {
            Level::Equality => self.binary(Level::Comparison),
            Level::Comparison => self.binary(Level::Term),
            Level::Term => self.binary(Level::Factor),
            Level::Factor => self.unary(),
        }
    }

    #[verifier::spinoff_prover]
    fn binary(&mut self, level: Level) -> (result: Result<Expr, SyntaxError>)
        requires
            old(self).wf(),
        ensures
            final(self).follows(
                old(self),
                grammar::binary(level, old(self).rest(), old(self).counter()),
                viewed(result),
            ),
            !(result matches Err(SyntaxError::Stuck)),
            result is Ok ==> final(self).position > old(self).position,
            final(self).expr_counter >= old(self).expr_counter,
            result matches Ok(e) ==> numbered(e@, old(self).counter(), final(self).counter()),
        decreases old(self).tokens@.len() - old(self).position, level.rank(),
    {
        proof {
            reveal(grammar::binary);
            reveal(grammar::binary_rest);
        }
        let mut expr = match self.operand(level) {
            Ok(e) => e,
            Err(e) => {
                return Err(e);
            },
        };
        loop
            invariant
                self.expr_counter >= old(self).expr_counter,
                numbered(expr@, old(self).counter(), self.counter()),
                self.wf(),
                self.tokens == old(self).tokens,
                self.position > old(self).position,
                self.position >= old(self).position,
                self.position - self.expr_counter >= old(self).position - old(self).expr_counter,
                grammar::binary(level, old(self).rest(), old(self).counter())
                    == grammar::binary_rest(
                    level,
                    self.rest(),
                    self.counter(),
                    expr@,
                    (self.position - old(self).position) as nat,
                ),
            decreases self.tokens@.len() - self.position,
        {
            proof {
                reveal(grammar::binary_rest);
            }
            if !(self.position < self.tokens.len() && level.accepts(
                self.tokens[self.position].typ,
            )) {
                return Ok(expr);
            }
            let op = self.take();
            let right = match self.operand(level) {
                Ok(e) => e,
                Err(e) => {
                    return Err(e);
                },
            };
            expr = self.leaf(
                ExprKind::Binary { left: Box::new(expr), op, right: Box::new(right) },
            );
        }
    }

    #[verifier::spinoff_prover]
    fn and(&mut self) -> (result: Result<Expr, SyntaxError>)
        requires
            old(self).wf(),
        ensures
            final(self).follows(
                old(self),
                grammar::and(old(self).rest(), old(self).counter()),
                viewed(result),
            ),
            !(result matches Err(SyntaxError::Stuck)),
            result is Ok ==> final(self).position > old(self).position,
            final(self).expr_counter >= old(self).expr_counter,
            result matches Ok(e) ==> numbered(e@, old(self).counter(), final(self).counter()),
        decreases old(self).tokens@.len() - old(self).position, 14nat,
    {
        proof {
            reveal(grammar::and);
            reveal(grammar::and_rest);
        }
        let mut expr = match self.binary(Level::Equality) {
            Ok(e) => e,
            Err(e) => {
                return Err(e);
            },
        };
        loop
            invariant
                self.expr_counter >= old(self).expr_counter,
                numbered(expr@, old(self).counter(), self.counter()),
                self.wf(),
                self.tokens == old(self).tokens,
                self.position > old(self).position,
                self.position >= old(self).position,
                self.position - self.expr_counter >= old(self).position - old(self).expr_counter,
                grammar::and(old(self).rest(), old(self).counter()) == grammar::and_rest(
                    self.rest(),
                    self.counter(),
                    expr@,
                    (self.position - old(self).position) as nat,
                ),
            decreases self.tokens@.len() - self.position,
        {
            proof {
                reveal(grammar::and_rest);
            }
            if !self.peek_is(TokenType::And) {
                return Ok(expr);
            }
            let op = self.take();
            let right = match self.binary(Level::Equality) {
                Ok(e) => e,
                Err(e) => {
                    return Err(e);
                },
            };
            expr = self.leaf(
                ExprKind::Logical { left: Box::new(expr), op, right: Box::new(right) },
            );
        }
    }

    #[verifier::spinoff_prover]
    fn or(&mut self) -> (result: Result<Expr, SyntaxError>)
        requires
            old(self).wf(),
        ensures
            final(self).follows(
                old(self),
                grammar::or(old(self).rest(), old(self).counter()),
                viewed(result),
            ),
            !(result matches Err(SyntaxError::Stuck)),
            result is Ok ==> final(self).position > old(self).position,
            final(self).expr_counter >= old(self).expr_counter,
            result matches Ok(e) ==> numbered(e@, old(self).counter(), final(self).counter()),
        decreases old(self).tokens@.len() - old(self).position, 16nat,
    {
        proof {
            reveal(grammar::or);
            reveal(grammar::or_rest);
        }
        let mut expr = match self.and() {
            Ok(e) => e,
            Err(e) => {
                return Err(e);
            },
        };
        loop
            invariant
                self.expr_counter >= old(self).expr_counter,
                numbered(expr@, old(self).counter(), self.counter()),
                self.wf(),
                self.tokens == old(self).tokens,
                self.position > old(self).position,
                self.position >= old(self).position,
                self.position - self.expr_counter >= old(self).position - old(self).expr_counter,
                grammar::or(old(self).rest(), old(self).counter()) == grammar::or_rest(
                    self.rest(),
                    self.counter(),
                    expr@,
                    (self.position - old(self).position) as nat,
                ),
            decreases self.tokens@.len() - self.position,
        {
            proof {
                reveal(grammar::or_rest);
            }
            if !self.peek_is(TokenType::Or) {
                return Ok(expr);
            }
            let op = self.take();
            let right = match self.and() {
                Ok(e) => e,
                Err(e) => {
                    return Err(e);
                },
            };
            expr = self.leaf(
                ExprKind::Logical { left: Box::new(expr), op, right: Box::new(right) },
            );
        }
    }

    #[verifier::spinoff_prover]
    fn assignment(&mut self) -> (result: Result<Expr, SyntaxError>)
        requires
            old(self).wf(),
        ensures
            final(self).follows(
                old(self),
                grammar::assignment(old(self).rest(), old(self).counter()),
                viewed(result),
            ),
            !(result matches Err(SyntaxError::Stuck)),
            result is Ok ==> final(self).position > old(self).position,
            final(self).expr_counter >= old(self).expr_counter,
            result matches Ok(e) ==> numbered(e@, old(self).counter(), final(self).counter()),
        decreases old(self).tokens@.len() - old(self).position, 17nat,
    {
        proof {
            reveal(grammar::assignment);
        }
        let expr = match self.or() {
            Ok(e) => e,
            Err(e) => {
                return Err(e);
            },
        };
        if !self.peek_is(TokenType::Equal) {
            return Ok(expr);
        }
        let _ = self.take();
        let value = match self.assignment() {
            Ok(e) => e,
            Err(e) => {
                return Err(e);
            },
        };
        let ghost target = expr@;
        let ghost source = value@;
        let ghost first = old(self).counter();
        let ghost middle = self.counter();
        match expr.kind {
            ExprKind::Var { name } => {
                let assign = self.leaf(ExprKind::Assign { name, expr: Box::new(value) });
                proof {
                    assert(expr_ids(assign@) == expr_ids(source).insert(assign.id as nat));
                }
                Ok(assign)
            },
            ExprKind::Get { object, name } => {
                let ghost inner = object@;
                let put = self.leaf(ExprKind::Put { object, name, value: Box::new(value) });
                proof {
                    assert(expr_ids(target) == expr_ids(inner).insert(target.id));
                    assert forall|x: nat| expr_ids(inner).contains(x) implies expr_ids(
                        target,
                    ).contains(x) by {}
                    assert(expr_ids(put@) == expr_ids(inner).union(expr_ids(source)).insert(
                        put.id as nat,
                    ));
                    assert(expr_ids(inner).disjoint(expr_ids(source)));
                }
                Ok(put)
            },
            _ => Err(SyntaxError::InvalidAssignmentTarget),
        }
    }

    #[verifier::spinoff_prover]
    fn expression(&mut self) -> (result: Result<Expr, SyntaxError>)
        requires
            old(self).wf(),
        ensures
            final(self).follows(
                old(self),
                grammar::expression(old(self).rest(), old(self).counter()),
                viewed(result),
            ),
            !(result matches Err(SyntaxError::Stuck)),
            result is Ok ==> final(self).position > old(self).position,
            final(self).expr_counter >= old(self).expr_counter,
            result matches Ok(e) ==> numbered(e@, old(self).counter(), final(self).counter()),
        decreases old(self).tokens@.len() - old(self).position, 18nat,
    {
        proof {
            reveal(grammar::expression);
        }
        self.assignment()
    }

    #[verifier::spinoff_prover]
    fn terminated(&mut self) -> (result: Result<Expr, SyntaxError>)
        requires
            old(self).wf(),
        ensures
            final(self).follows(
                old(self),
                grammar::terminated(old(self).rest(), old(self).counter()),
                viewed(result),
            ),
            !(result matches Err(SyntaxError::Stuck)),
            result is Ok ==> final(self).position > old(self).position,
            result is Ok ==> final(self).position - final(self).expr_counter > old(self).position
                - old(self).expr_counter,
            final(self).expr_counter >= old(self).expr_counter,
            result matches Ok(e) ==> numbered(e@, old(self).counter(), final(self).counter()),
        decreases old(self).tokens@.len() - old(self).position, 19nat,
    {
        proof {
            reveal(grammar::terminated);
        }
        let expr = match self.expression() {
            Ok(e) => e,
            Err(e) => {
                return Err(e);
            },
        };
        if !self.peek_is(TokenType::Semicolon) {
            return Err(SyntaxError::ExpectedSemicolon);
        }
        let _ = self.take();
        Ok(expr)
    }

    #[verifier::spinoff_prover]
    fn condition(&mut self) -> (result: Result<Expr, SyntaxError>)
        requires
            old(self).wf(),
        ensures
            final(self).follows(
                old(self),
                grammar::condition(old(self).rest(), old(self).counter()),
                viewed(result),
            ),
            !(result matches Err(SyntaxError::Stuck)),
            final(self).expr_counter >= old(self).expr_counter,
            result matches Ok(e) ==> numbered(e@, old(self).counter(), final(self).counter()),
        decreases old(self).tokens@.len() - old(self).position, 19nat,
    {
        proof {
            reveal(grammar::condition);
        }
        if !self.peek_is(TokenType::LeftParen) {
            return Err(SyntaxError::ExpectedLeftParen);
        }
        let _ = self.take();
        let expr = match self.expression() {
            Ok(e) => e,
            Err(e) => {
                return Err(e);
            },
        };
        if !self.peek_is(TokenType::RightParen) {
            return Err(SyntaxError::ExpectedRightParen);
        }
        let _ = self.take();
        Ok(expr)
    }

    #[verifier::spinoff_prover]
    fn if_statement(&mut self) -> (result: Result<Stmt, SyntaxError>)
        requires
            old(self).wf(),
        ensures
            final(self).follows(
                old(self),
                grammar::if_statement(old(self).rest(), old(self).counter()),
                viewed(result),
            ),
            !(result matches Err(SyntaxError::Stuck)),
            final(self).expr_counter >= old(self).expr_counter,
            result matches Ok(s) ==> numbered_stmt(s@, old(self).counter(), final(self).counter()),
        decreases old(self).tokens@.len() - old(self).position, 27nat,
    {
        proof {
            reveal(grammar::if_statement);
        }
        let condition = match self.condition() {
            Ok(e) => e,
            Err(e) => {
                return Err(e);
            },
        };
        let then_branch = match self.statement() {
            Ok(s) => s,
            Err(e) => {
                return Err(e);
            },
        };
        if self.peek_is(TokenType::Else) {
            let _ = self.take();
            let else_branch = match self.statement() {
                Ok(s) => s,
                Err(e) => {
                    return Err(e);
                },
            };
            Ok(
                Stmt::If {
                    condition,
                    then_branch: Box::new(then_branch),
                    else_branch: Some(Box::new(else_branch)),
                },
            )
        } else {
            Ok(Stmt::If { condition, then_branch: Box::new(then_branch), else_branch: None })
        }
    }

    #[verifier::spinoff_prover]
    fn return_statement(&mut self) -> (result: Result<Stmt, SyntaxError>)
        requires
            old(self).wf(),
        ensures
            final(self).follows(
                old(self),
                grammar::return_statement(old(self).rest(), old(self).counter()),
                viewed(result),
            ),
            !(result matches Err(SyntaxError::Stuck)),
            final(self).expr_counter >= old(self).expr_counter,
            result matches Ok(s) ==> numbered_stmt(s@, old(self).counter(), final(self).counter()),
        decreases old(self).tokens@.len() - old(self).position, 27nat,
    {
        proof {
            reveal(grammar::return_statement);
        }
        if self.peek_is(TokenType::Semicolon) {
            let _ = self.take();
            Ok(Stmt::Return { value: None })
        } else {
            match self.terminated() {
                Ok(e) => Ok(Stmt::Return { value: Some(e) }),
                Err(e) => Err(e),
            }
        }
    }

    #[verifier::spinoff_prover]
    fn while_statement(&mut self) -> (result: Result<Stmt, SyntaxError>)
        requires
            old(self).wf(),
        ensures
            final(self).follows(
                old(self),
                grammar::while_statement(old(self).rest(), old(self).counter()),
                viewed(result),
            ),
            !(result matches Err(SyntaxError::Stuck)),
            final(self).expr_counter >= old(self).expr_counter,
            result matches Ok(s) ==> numbered_stmt(s@, old(self).counter(), final(self).counter()),
        decreases old(self).tokens@.len() - old(self).position, 27nat,
    {
        proof {
            reveal(grammar::while_statement);
        }
        let condition = match self.condition() {
            Ok(e) => e,
            Err(e) => {
                return Err(e);
            },
        };
        let body = match self.statement() {
            Ok(s) => s,
            Err(e) => {
                return Err(e);
            },
        };
        Ok(Stmt::While { condition, body: Box::new(body) })
    }

    #[verifier::spinoff_prover]
    fn for_initializer(&mut self) -> (result: Result<Option<Declaration>, SyntaxError>)
        requires
            old(self).wf(),
        ensures
            final(self).follows(
                old(self),
                grammar::for_initializer(old(self).rest(), old(self).counter()),
                match result {
                    Ok(d) => Ok(optional_decl(d)),
                    Err(e) => Err(e),
                },
            ),
            !(result matches Err(SyntaxError::Stuck)),
            final(self).expr_counter >= old(self).expr_counter,
            result matches Ok(Some(d)) ==> numbered_decl(
                d@,
                old(self).counter(),
                final(self).counter(),
            ),
        decreases old(self).tokens@.len() - old(self).position, 23nat,
    {
        proof {
            reveal(grammar::for_initializer);
        }
        if self.peek_is(TokenType::Semicolon) {
            let _ = self.take();
            Ok(None)
        } else if self.peek_is(TokenType::Var) {
            match self.declaration() {
                Ok(d) => Ok(Some(d)),
                Err(e) => Err(e),
            }
        } else {
            match self.expression() {
                Ok(e) => Ok(Some(Declaration::Statement(Stmt::Expr(e)))),
                Err(e) => Err(e),
            }
        }
    }

    #[verifier::spinoff_prover]
    fn for_clause(&mut self, end: TokenType) -> (result: Result<Option<Expr>, SyntaxError>)
        requires
            old(self).wf(),
        ensures
            final(self).follows(
                old(self),
                grammar::for_clause(old(self).rest(), old(self).counter(), end),
                match result {
                    Ok(e) => Ok(optional_expr(e)),
                    Err(e) => Err(e),
                },
            ),
            !(result matches Err(SyntaxError::Stuck)),
            result is Ok ==> final(self).position > old(self).position,
            final(self).expr_counter >= old(self).expr_counter,
            result matches Ok(Some(e)) ==> numbered(e@, old(self).counter(), final(self).counter()),
        decreases old(self).tokens@.len() - old(self).position, 19nat,
    {
        proof {
            reveal(grammar::for_clause);
        }
        let missing = if end == TokenType::Semicolon {
            SyntaxError::ExpectedSemicolon
        } else {
            SyntaxError::ExpectedRightParen
        };
        if self.position < self.tokens.len() && self.tokens[self.position].typ != end {
            let expr = match self.expression() {
                Ok(e) => e,
                Err(e) => {
                    return Err(e);
                },
            };
            if !self.peek_is(end) {
                return Err(missing);
            }
            let _ = self.take();
            Ok(Some(expr))
        } else if self.peek_is(end) {
            let _ = self.take();
            Ok(None)
        } else {
            Err(missing)
        }
    }

    #[verifier::spinoff_prover]
    fn for_statement(&mut self) -> (result: Result<Stmt, SyntaxError>)
        requires
            old(self).wf(),
        ensures
            final(self).follows(
                old(self),
                grammar::for_statement(old(self).rest(), old(self).counter()),
                viewed(result),
            ),
            !(result matches Err(SyntaxError::Stuck)),
            final(self).expr_counter >= old(self).expr_counter,
            result matches Ok(s) ==> numbered_stmt(s@, old(self).counter(), final(self).counter()),
        decreases old(self).tokens@.len() - old(self).position, 27nat,
    {
        proof {
            reveal(grammar::for_statement);
        }
        if !self.peek_is(TokenType::LeftParen) {
            return Err(SyntaxError::ExpectedLeftParen);
        }
        let _ = self.take();
        let ghost a = self.counter();
        let initializer = match self.for_initializer() {
            Ok(i) => i,
            Err(e) => {
                return Err(e);
            },
        };
        let ghost b = self.counter();
        let condition = match self.for_clause(TokenType::Semicolon) {
            Ok(c) => c,
            Err(e) => {
                return Err(e);
            },
        };
        let ghost c = self.counter();
        let increment = match self.for_clause(TokenType::RightParen) {
            Ok(c) => c,
            Err(e) => {
                return Err(e);
            },
        };
        let ghost d = self.counter();
        let body = match self.statement() {
            Ok(s) => s,
            Err(e) => {
                return Err(e);
            },
        };
        let always = self.leaf(ExprKind::Literal { value: Literal::Boolean(true) });
        Ok(desugar_for(initializer, condition, increment, body, always, Ghost((a, b, c, d))))
    }

    #[verifier::spinoff_prover]
    fn block(&mut self) -> (result: Result<Vec<Declaration>, SyntaxError>)
        requires
            old(self).wf(),
        ensures
            final(self).follows(
                old(self),
                grammar::block_rest(
                    old(self).rest(),
                    old(self).counter(),
                    Seq::empty(),
                    0,
                ),
                viewed_decls(result),
            ),
            !(result matches Err(SyntaxError::Stuck)),
            final(self).expr_counter >= old(self).expr_counter,
            result matches Ok(list) ==> numbered_decls(
                decl_trees(list@),
                old(self).counter(),
                final(self).counter(),
            ),
        decreases old(self).tokens@.len() - old(self).position, 23nat,
    {
        let mut statements: Vec<Declaration> = Vec::new();
        assert(decl_trees(statements@) =~= Seq::empty());
        loop
            invariant
                self.expr_counter >= old(self).expr_counter,
                numbered_decls(decl_trees(statements@), old(self).counter(), self.counter()),
                self.wf(),
                self.tokens == old(self).tokens,
                self.position >= old(self).position,
                self.position - self.expr_counter >= old(self).position - old(self).expr_counter,
                grammar::block_rest(
                    old(self).rest(),
                    old(self).counter(),
                    Seq::empty(),
                    0,
                ) == grammar::block_rest(
                    self.rest(),
                    self.counter(),
                    decl_trees(statements@),
                    (self.position - old(self).position) as nat,
                ),
            decreases self.tokens@.len() - self.position,
        {
            proof {
                reveal(grammar::block_rest);
            }
            if self.position >= self.tokens.len() {
                return Err(SyntaxError::ExpectedRightBrace);
            }
            if self.peek_is(TokenType::RightBrace) {
                let _ = self.take();
                return Ok(statements);
            }
            let ghost found = decl_trees(statements@);
            let decl = match self.declaration() {
                Ok(d) => d,
                Err(e) => {
                    return Err(e);
                },
            };
            statements.push(decl);
            assert(decl_trees(statements@) =~= found.push(decl@));
            proof {
                lemma_decls_push(found, decl@);
            }
        }
    }

    #[verifier::spinoff_prover]
    fn statement(&mut self) -> (result: Result<Stmt, SyntaxError>)
        requires
            old(self).wf(),
        ensures
            final(self).follows(
                old(self),
                grammar::statement(old(self).rest(), old(self).counter()),
                viewed(result),
            ),
            !(result matches Err(SyntaxError::Stuck)),
            result is Ok ==> final(self).position > old(self).position,
            final(self).expr_counter >= old(self).expr_counter,
            result matches Ok(s) ==> numbered_stmt(s@, old(self).counter(), final(self).counter()),
        decreases old(self).tokens@.len() - old(self).position, 21nat,
    {
        proof {
            reveal(grammar::statement);
        }
        if self.peek_is(TokenType::If) {
            let _ = self.take();
            self.if_statement()
        } else if self.peek_is(TokenType::Print) {
            let _ = self.take();
            match self.terminated() {
                Ok(e) => Ok(Stmt::Print(e)),
                Err(e) => Err(e),
            }
        } else if self.peek_is(TokenType::Return) {
            let _ = self.take();
            self.return_statement()
        } else if self.peek_is(TokenType::For) {
            let _ = self.take();
            self.for_statement()
        } else if self.peek_is(TokenType::While) {
            let _ = self.take();
            self.while_statement()
        } else if self.peek_is(TokenType::LeftBrace) {
            let _ = self.take();
            match self.block() {
                Ok(decls) => Ok(Stmt::Block(decls)),
                Err(e) => Err(e),
            }
        } else {
            match self.terminated() {
                Ok(e) => Ok(Stmt::Expr(e)),
                Err(e) => Err(e),
            }
        }
    }

    #[verifier::spinoff_prover]
    fn parameters(&mut self) -> (result: Result<Vec<Token>, SyntaxError>)
        requires
            old(self).wf(),
        ensures
            final(self).follows(
                old(self),
                grammar::parameters(
                    old(self).rest(),
                    old(self).counter(),
                    Seq::empty(),
                    0,
                ),
                match result {
                    Ok(list) => Ok(tokens_view(list@)),
                    Err(e) => Err(e),
                },
            ),
            !(result matches Err(SyntaxError::Stuck)),
            final(self).expr_counter == old(self).expr_counter,
    {
        let mut parameters: Vec<Token> = Vec::new();
        assert(tokens_view(parameters@) =~= Seq::empty());
        loop
            invariant
                self.wf(),
                self.tokens == old(self).tokens,
                self.position >= old(self).position,
                self.expr_counter == old(self).expr_counter,
                grammar::parameters(
                    old(self).rest(),
                    old(self).counter(),
                    Seq::empty(),
                    0,
                ) == grammar::parameters(
                    self.rest(),
                    self.counter(),
                    tokens_view(parameters@),
                    (self.position - old(self).position) as nat,
                ),
            decreases self.tokens@.len() - self.position,
        {
            proof {
                reveal(grammar::parameters);
            }
            if parameters.len() > 255 {
                return Err(SyntaxError::TooManyParameters);
            }
            if !self.peek_is(TokenType::Identifier) {
                return Err(SyntaxError::ExpectedParameterName);
            }
            let ghost found = tokens_view(parameters@);
            let name = self.take();
            parameters.push(name);
            assert(tokens_view(parameters@) =~= found.push(name@));
            if self.peek_is(TokenType::Comma) {
                let _ = self.take();
            } else {
                return Ok(parameters);
            }
        }
    }

    #[verifier::spinoff_prover]
    fn function(&mut self) -> (result: Result<FunctionStmt, SyntaxError>)
        requires
            old(self).wf(),
        ensures
            final(self).follows(
                old(self),
                grammar::function(old(self).rest(), old(self).counter()),
                viewed(result),
            ),
            !(result matches Err(SyntaxError::Stuck)),
            result is Ok ==> final(self).position > old(self).position,
            final(self).expr_counter >= old(self).expr_counter,
            result matches Ok(f) ==> numbered_decls(
                f@.body,
                old(self).counter(),
                final(self).counter(),
            ),
        decreases old(self).tokens@.len() - old(self).position, 24nat,
    {
        proof {
            reveal(grammar::function);
        }
        if !self.peek_is(TokenType::Identifier) {
            return Err(SyntaxError::ExpectedFunctionName);
        }
        let name = self.take();
        if !self.peek_is(TokenType::LeftParen) {
            return Err(SyntaxError::ExpectedLeftParen);
        }
        let _ = self.take();
        let parameters = if self.peek_is(TokenType::RightParen) {
            let none: Vec<Token> = Vec::new();
            assert(tokens_view(none@) =~= Seq::empty());
            none
        } else {
            match self.parameters() {
                Ok(list) => list,
                Err(e) => {
                    return Err(e);
                },
            }
        };
        if !self.peek_is(TokenType::RightParen) {
            return Err(SyntaxError::ExpectedRightParen);
        }
        let _ = self.take();
        if !self.peek_is(TokenType::LeftBrace) {
            return Err(SyntaxError::ExpectedLeftBrace);
        }
        let _ = self.take();
        let body = match self.block() {
            Ok(decls) => decls,
            Err(e) => {
                return Err(e);
            },
        };
        let function = FunctionStmt { identifier: Identifier(name.lexeme), parameters, body };
        assert(function@.body =~= decl_trees(body@));
        Ok(function)
    }

    #[verifier::spinoff_prover]
    fn methods(&mut self) -> (result: Result<Vec<FunctionStmt>, SyntaxError>)
        requires
            old(self).wf(),
        ensures
            final(self).follows(
                old(self),
                grammar::methods_rest(
                    old(self).rest(),
                    old(self).counter(),
                    Seq::empty(),
                    0,
                ),
                match result {
                    Ok(list) => Ok(function_trees(list@)),
                    Err(e) => Err(e),
                },
            ),
            !(result matches Err(SyntaxError::Stuck)),
            final(self).expr_counter >= old(self).expr_counter,
            result matches Ok(list) ==> numbered_functions(
                function_trees(list@),
                old(self).counter(),
                final(self).counter(),
            ),
        decreases old(self).tokens@.len() - old(self).position, 25nat,
    {
        let mut methods: Vec<FunctionStmt> = Vec::new();
        assert(function_trees(methods@) =~= Seq::empty());
        loop
            invariant
                self.expr_counter >= old(self).expr_counter,
                numbered_functions(function_trees(methods@), old(self).counter(), self.counter()),
                self.wf(),
                self.tokens == old(self).tokens,
                self.position >= old(self).position,
                self.position - self.expr_counter >= old(self).position - old(self).expr_counter,
                grammar::methods_rest(
                    old(self).rest(),
                    old(self).counter(),
                    Seq::empty(),
                    0,
                ) == grammar::methods_rest(
                    self.rest(),
                    self.counter(),
                    function_trees(methods@),
                    (self.position - old(self).position) as nat,
                ),
            decreases self.tokens@.len() - self.position,
        {
            proof {
                reveal(grammar::methods_rest);
            }
            if self.position >= self.tokens.len() {
                return Err(SyntaxError::ExpectedFunctionName);
            }
            if self.peek_is(TokenType::RightBrace) {
                let _ = self.take();
                return Ok(methods);
            }
            let ghost found = function_trees(methods@);
            let method = match self.function() {
                Ok(f) => f,
                Err(e) => {
                    return Err(e);
                },
            };
            methods.push(method);
            assert(function_trees(methods@) =~= found.push(method@));
            proof {
                lemma_functions_push(found, method@);
            }
        }
    }

    #[verifier::spinoff_prover]
    fn class(&mut self) -> (result: Result<ClassDecl, SyntaxError>)
        requires
            old(self).wf(),
        ensures
            final(self).follows(
                old(self),
                grammar::class(old(self).rest(), old(self).counter()),
                viewed(result),
            ),
            !(result matches Err(SyntaxError::Stuck)),
            final(self).expr_counter >= old(self).expr_counter,
            result matches Ok(c) ==> numbered_stmt(
                StmtTree::ClassDecl(c@),
                old(self).counter(),
                final(self).counter(),
            ),
        decreases old(self).tokens@.len() - old(self).position, 26nat,
    {
        proof {
            reveal(grammar::class);
        }
        if !self.peek_is(TokenType::Identifier) {
            return Err(SyntaxError::ExpectedClassName);
        }
        let name = self.take();
        let superclass = if self.peek_is(TokenType::Less) {
            let _ = self.take();
            if !self.peek_is(TokenType::Identifier) {
                return Err(SyntaxError::ExpectedSuperclassName);
            }
            let parent = self.take();
            Some(self.leaf(ExprKind::Var { name: Identifier(parent.lexeme) }))
        } else {
            None
        };
        if !self.peek_is(TokenType::LeftBrace) {
            return Err(SyntaxError::ExpectedLeftBrace);
        }
        let _ = self.take();
        let methods = match self.methods() {
            Ok(list) => list,
            Err(e) => {
                return Err(e);
            },
        };
        let class = ClassDecl { name: Identifier(name.lexeme), methods, superclass };
        assert(class@.methods =~= function_trees(methods@));
        Ok(class)
    }

    #[verifier::spinoff_prover]
    fn declaration(&mut self) -> (result: Result<Declaration, SyntaxError>)
        requires
            old(self).wf(),
        ensures
            final(self).follows(
                old(self),
                grammar::declaration(old(self).rest(), old(self).counter()),
                viewed(result),
            ),
            !(result matches Err(SyntaxError::Stuck)),
            result is Ok ==> final(self).position > old(self).position,
            final(self).expr_counter >= old(self).expr_counter,
            result matches Ok(d) ==> numbered_decl(d@, old(self).counter(), final(self).counter()),
        decreases old(self).tokens@.len() - old(self).position, 22nat,
    {
        proof {
            reveal(grammar::declaration);
        }
        if self.peek_is(TokenType::Var) {
            let _ = self.take();
            if !self.peek_is(TokenType::Identifier) {
                return Err(SyntaxError::ExpectedVariableName);
            }
            let name = self.take();
            if !self.peek_is(TokenType::Equal) {
                return Err(SyntaxError::ExpectedInitializer);
            }
            let _ = self.take();
            match self.terminated() {
                Ok(initializer) => Ok(
                    Declaration::Var { identifier: Identifier(name.lexeme), expression: initializer },
                ),
                Err(e) => Err(e),
            }
        } else if self.peek_is(TokenType::Fun) {
            let _ = self.take();
            match self.function() {
                Ok(f) => Ok(Declaration::Statement(Stmt::FunctionDecl(f))),
                Err(e) => Err(e),
            }
        } else if self.peek_is(TokenType::Class) {
            let _ = self.take();
            match self.class() {
                Ok(c) => Ok(Declaration::Statement(Stmt::ClassDecl(c))),
                Err(e) => Err(e),
            }
        } else {
            match self.statement() {
                Ok(s) => Ok(Declaration::Statement(s)),
                Err(e) => Err(e),
            }
        }
    }

    /// Reads a whole program: the declarations that the tokens not read yet
    /// spell, up to the last token. On success the program's tree is the one
    /// that the grammar tells for these tokens; on failure the error is the
    /// one that the grammar tells.
    #[verifier::spinoff_prover]
    pub fn parse(&mut self) -> (result: Result<Program, SyntaxError>)
        requires
            old(self).wf(),
        ensures
            final(self).follows(
                old(self),
                grammar::program(old(self).rest(), old(self).counter()),
                viewed(result),
            ),
            !(result matches Err(SyntaxError::Stuck)),
            result is Ok ==> final(self).position == final(self).tokens@.len(),
            final(self).expr_counter >= old(self).expr_counter,
            result matches Ok(p) ==> numbered_decls(p@, old(self).counter(), final(self).counter()),
    {
        let mut decls: Vec<Declaration> = Vec::new();
        assert(decl_trees(decls@) =~= Seq::empty());
        loop
            invariant
                self.expr_counter >= old(self).expr_counter,
                numbered_decls(decl_trees(decls@), old(self).counter(), self.counter()),
                self.wf(),
                self.tokens == old(self).tokens,
                self.position >= old(self).position,
                self.position - self.expr_counter >= old(self).position - old(self).expr_counter,
                grammar::program(old(self).rest(), old(self).counter())
                    == grammar::program_rest(
                    self.rest(),
                    self.counter(),
                    decl_trees(decls@),
                    (self.position - old(self).position) as nat,
                ),
            decreases self.tokens@.len() - self.position,
        {
            proof {
                reveal(grammar::program_rest);
            }
            if self.position >= self.tokens.len() {
                return Ok(Program::Declarations(decls));
            }
            let ghost found = decl_trees(decls@);
            let decl = match self.declaration() {
                Ok(d) => d,
                Err(e) => {
                    return Err(e);
                },
            };
            decls.push(decl);
            assert(decl_trees(decls@) =~= found.push(decl@));
            proof {
                lemma_decls_push(found, decl@);
            }
        }
    }
}

} // verus!
