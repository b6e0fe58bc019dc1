//! What the resolver's annotations say.
//!
//! The resolver is specified by the walk it makes. This module says what
//! the table that it leaves behind means, without a walk: every reference
//! to a variable, to `this` or to `super` is recorded with the depth of the
//! innermost scope that declares the name where the reference stands, and
//! is not recorded at all if no local scope does. It proves that the walk
//! leaves such a table behind for every program whose expressions have ids
//! of their own, as the parser's have; and that a read or an assignment at
//! a recorded distance finds its scope wherever the scopes at run time
//! mirror the scopes that the resolver saw.

use vstd::prelude::*;
use crate::environment::{ancestor, lookup_at, Scope};
use crate::resolver::{depth_of, FunctionType, Names, Static};
use crate::syntax::{class_tree, DeclTree, ExprTree, FunctionTree, StmtTree};
use crate::theorems::{
    lemma_function_is_balanced, lemma_methods_are_balanced, theorem_expression_declares_nothing,
};
use crate::scanner::Token;
use crate::syntax::{
    decl_ids, decl_tree, decl_trees, decls_ids, expr_ids, expr_tree, expr_trees, exprs_ids,
    function_trees, functions_ids, stmt_ids, stmt_tree, unique_decl, unique_decls,
    unique_functions, unique_ids, unique_ids_list, unique_stmt, ClassDecl, Declaration, Expr,
    ExprKind, FunctionStmt, Stmt,
};

verus! {

/// Whether the table records, for the reference `id` to `name`, the depth
/// of the innermost of `scopes` that declares the name, as a machine
/// integer; and nothing, if none does.
pub open spec fn records(table: Map<u64, usize>, id: u64, scopes: Seq<Names>, name: Seq<char>) -> bool {
    match depth_of(scopes, name) {
        Some(d) => table.contains_key(id) && table[id] == d as usize,
        None => !table.contains_key(id),
    }
}

/// The scopes with `name` entered in the innermost one, ready for use or
/// not; unchanged at global level, where no scope is open.
pub open spec fn entered(scopes: Seq<Names>, name: Seq<char>, ready: bool) -> Seq<Names> {
    if scopes.len() == 0 {
        scopes
    } else {
        scopes.update(scopes.len() - 1, scopes.last().insert(name, ready))
    }
}

/// The scope that the first `n` parameters of a function make.
pub open spec fn parameter_scope(params: Seq<Token>, n: nat) -> Names
    decreases n,
{
    if n == 0 {
        Map::empty()
    } else {
        parameter_scope(params, (n - 1) as nat).insert(params[n - 1].lexeme@, true)
    }
}

/// The scopes open inside the methods of a class declared where `scopes`
/// are open.
pub open spec fn method_scopes(scopes: Seq<Names>, decl: &ClassDecl) -> Seq<Names> {
    let named = entered(scopes, decl.name@, true);
    let this = Map::<Seq<char>, bool>::empty().insert("this"@, true);
    if decl.superclass is Some {
        named.push(Map::<Seq<char>, bool>::empty().insert("super"@, true)).push(this)
    } else {
        named.push(this)
    }
}

/// The scopes open after a statement: a function or class declaration
/// enters its name.
pub open spec fn after_stmt(scopes: Seq<Names>, stmt: &Stmt) -> Seq<Names>
    decreases stmt,
{
    match stmt {
        Stmt::FunctionDecl(decl) => entered(scopes, decl.identifier@, true),
        Stmt::ClassDecl(decl) => entered(scopes, decl.name@, true),
        Stmt::If { then_branch, else_branch, .. } => match else_branch {
            Some(other) => after_stmt(after_stmt(scopes, then_branch), other),
            None => after_stmt(scopes, then_branch),
        },
        Stmt::While { body, .. } => after_stmt(scopes, body),
        _ => scopes,
    }
}

/// The scopes open after a declaration.
pub open spec fn after_decl(scopes: Seq<Names>, decl: &Declaration) -> Seq<Names> {
    match decl {
        Declaration::Var { identifier, .. } => entered(scopes, identifier@, true),
        Declaration::Statement(stmt) => after_stmt(scopes, stmt),
    }
}

/// Whether every reference in an expression that stands where `scopes` are
/// open is recorded as it should be.
pub open spec fn expr_annotated(table: Map<u64, usize>, scopes: Seq<Names>, expr: &Expr) -> bool
    decreases expr,
{
    match &expr.kind {
        ExprKind::Var { name } => records(table, expr.id, scopes, name@),
        ExprKind::This { token } => records(table, expr.id, scopes, token@),
        ExprKind::Super { token, .. } => records(table, expr.id, scopes, token@),
        ExprKind::Assign { name, expr: value } => expr_annotated(table, scopes, value) && records(
            table,
            expr.id,
            scopes,
            name@,
        ),
        ExprKind::Binary { left, right, .. } => expr_annotated(table, scopes, left)
            && expr_annotated(table, scopes, right),
        ExprKind::Logical { left, right, .. } => expr_annotated(table, scopes, left)
            && expr_annotated(table, scopes, right),
        ExprKind::Grouping { expr: inner } => expr_annotated(table, scopes, inner),
        ExprKind::Unary { right, .. } => expr_annotated(table, scopes, right),
        ExprKind::Call { callee, args, .. } => expr_annotated(table, scopes, callee)
            && exprs_annotated(table, scopes, args@, 0),
        ExprKind::Get { object, .. } => expr_annotated(table, scopes, object),
        ExprKind::Put { object, value, .. } => expr_annotated(table, scopes, value)
            && expr_annotated(table, scopes, object),
        ExprKind::Literal { .. } => true,
    }
}

/// Whether every reference in the expressions of a list, from index `from`
/// on, is recorded as it should be.
pub open spec fn exprs_annotated(
    table: Map<u64, usize>,
    scopes: Seq<Names>,
    exprs: Seq<Expr>,
    from: int,
) -> bool
    decreases exprs, exprs.len() - from,
{
    if 0 <= from < exprs.len() {
        expr_annotated(table, scopes, &exprs[from]) && exprs_annotated(
            table,
            scopes,
            exprs,
            from + 1,
        )
    } else {
        true
    }
}

/// Whether every reference in a statement that stands where `scopes` are
/// open is recorded as it should be. A block opens a scope; a function
/// opens one for its parameters and body; a class opens one for `this`,
/// inside one for `super` if it has a superclass.
pub open spec fn stmt_annotated(table: Map<u64, usize>, scopes: Seq<Names>, stmt: &Stmt) -> bool
    decreases stmt,
{
    match stmt {
        Stmt::Expr(expr) => expr_annotated(table, scopes, expr),
        Stmt::Print(expr) => expr_annotated(table, scopes, expr),
        Stmt::Return { value } => match value {
            Some(expr) => expr_annotated(table, scopes, expr),
            None => true,
        },
        Stmt::FunctionDecl(decl) => function_annotated(
            table,
            entered(scopes, decl.identifier@, true),
            decl,
        ),
        Stmt::If { condition, then_branch, else_branch } => expr_annotated(
            table,
            scopes,
            condition,
        ) && stmt_annotated(table, scopes, then_branch) && match else_branch {
            Some(other) => stmt_annotated(table, after_stmt(scopes, then_branch), other),
            None => true,
        },
        Stmt::While { condition, body } => expr_annotated(table, scopes, condition)
            && stmt_annotated(table, scopes, body),
        Stmt::Block(decls) => decls_annotated(table, scopes.push(Map::empty()), decls@, 0),
        Stmt::ClassDecl(decl) => (match &decl.superclass {
            Some(expr) => expr_annotated(table, entered(scopes, decl.name@, true), expr),
            None => true,
        }) && methods_annotated(table, method_scopes(scopes, decl), decl.methods@, 0),
    }
}

/// Whether every reference in a declaration is recorded as it should be.
/// The initializer of a variable stands where the variable is declared but
/// not ready for use.
pub open spec fn decl_annotated(table: Map<u64, usize>, scopes: Seq<Names>, decl: &Declaration) -> bool
    decreases decl,
{
    match decl {
        Declaration::Var { identifier, expression } => expr_annotated(
            table,
            entered(scopes, identifier@, false),
            expression,
        ),
        Declaration::Statement(stmt) => stmt_annotated(table, scopes, stmt),
    }
}

/// Whether every reference in the declarations of a list, from index
/// `from` on, is recorded as it should be; each declaration stands where
/// the names of those before it are declared.
pub open spec fn decls_annotated(
    table: Map<u64, usize>,
    scopes: Seq<Names>,
    decls: Seq<Declaration>,
    from: int,
) -> bool
    decreases decls, decls.len() - from,
{
    if 0 <= from < decls.len() {
        decl_annotated(table, scopes, &decls[from]) && decls_annotated(
            table,
            after_decl(scopes, &decls[from]),
            decls,
            from + 1,
        )
    } else {
        true
    }
}

/// Whether every reference in the body of a function is recorded as it
/// should be.
pub open spec fn function_annotated(
    table: Map<u64, usize>,
    scopes: Seq<Names>,
    decl: &FunctionStmt,
) -> bool
    decreases decl,
{
    decls_annotated(
        table,
        scopes.push(parameter_scope(decl.parameters@, decl.parameters@.len())),
        decl.body@,
        0,
    )
}

/// Whether every reference in the methods of a list, from index `from` on,
/// is recorded as it should be.
pub open spec fn methods_annotated(
    table: Map<u64, usize>,
    scopes: Seq<Names>,
    methods: Seq<FunctionStmt>,
    from: int,
) -> bool
    decreases methods, methods.len() - from,
{
    if 0 <= from < methods.len() {
        function_annotated(table, scopes, &methods[from]) && methods_annotated(
            table,
            scopes,
            methods,
            from + 1,
        )
    } else {
        true
    }
}

/// Whether two tables say the same of the expressions with ids in `ids`.
pub open spec fn same_on(a: Map<u64, usize>, b: Map<u64, usize>, ids: Set<nat>) -> bool {
    forall|k: u64|
        ids.contains(k as nat) ==> (#[trigger] a.contains_key(k)) == b.contains_key(k) && (
        a.contains_key(k) ==> a[k] == b[k])
}

/// Whether two tables say the same of the expressions with ids not in
/// `ids`.
pub open spec fn same_off(a: Map<u64, usize>, b: Map<u64, usize>, ids: Set<nat>) -> bool {
    forall|k: u64|
        !ids.contains(k as nat) ==> (#[trigger] a.contains_key(k)) == b.contains_key(k) && (
        a.contains_key(k) ==> a[k] == b[k])
}

/// Whether a table says nothing of the expressions with ids in `ids`.
pub open spec fn fresh(a: Map<u64, usize>, ids: Set<nat>) -> bool {
    forall|k: u64| ids.contains(k as nat) ==> !(#[trigger] a.contains_key(k))
}

/// The ids of the expressions of a list from index `from` on.
pub open spec fn exprs_ids_from(es: Seq<ExprTree>, from: int) -> Set<nat> {
    Set::new(|x: nat| exists|j: int| from <= j < es.len() && 0 <= j && expr_ids(es[j]).contains(x))
}

/// Expressions of a list whose expressions have ids of their own share no
/// id, and all ids of the list are those of its expressions.
pub proof fn lemma_exprs_apart(es: Seq<ExprTree>, n: nat)
    requires
        n <= es.len(),
        unique_ids_list(es, n),
    ensures
        forall|i: int| 0 <= i < n ==> unique_ids(#[trigger] es[i]),
        forall|i: int, j: int|
            0 <= i < j < n ==> (#[trigger] expr_ids(es[i])).disjoint(#[trigger] expr_ids(es[j])),
    decreases n,
{
    if n > 0 {
        lemma_exprs_apart(es, (n - 1) as nat);
        let last = expr_ids(es[n - 1]);
        let before = exprs_ids(es, (n - 1) as nat);
        assert(before.disjoint(last));
        assert forall|i: int, j: int| 0 <= i < j < n implies (#[trigger] expr_ids(es[i])).disjoint(
            #[trigger] expr_ids(es[j]),
        ) by {
            if j == n - 1 {
                assert forall|x: nat| !(expr_ids(es[i]).contains(x) && expr_ids(es[j]).contains(x)) by {
                    if expr_ids(es[i]).contains(x) {
                        lemma_exprs_holds(es, (n - 1) as nat, i, x);
                    }
                }
            }
        }
    }
}

/// Resolving an expression records nothing of other expressions.
pub proof fn lemma_expr_frame(s: Static, expr: &Expr)
    requires
        s.resolve_expr(expr) is Ok,
    ensures
        same_off(s.resolve_expr(expr)->Ok_0.locals, s.locals, expr_ids(expr@)),
    decreases expr,
{
    match &expr.kind {
        ExprKind::Assign { expr: value, .. } => {
            lemma_expr_frame(s, value);
        },
        ExprKind::Binary { left, right, .. } => {
            lemma_expr_frame(s, left);
            lemma_expr_frame(s.resolve_expr(left)->Ok_0, right);
        },
        ExprKind::Logical { left, right, .. } => {
            lemma_expr_frame(s, left);
            lemma_expr_frame(s.resolve_expr(left)->Ok_0, right);
        },
        ExprKind::Grouping { expr: inner } => {
            lemma_expr_frame(s, inner);
        },
        ExprKind::Unary { right, .. } => {
            lemma_expr_frame(s, right);
        },
        ExprKind::Call { callee, args, .. } => {
            lemma_expr_frame(s, callee);
            let t = s.resolve_expr(callee)->Ok_0;
            lemma_exprs_frame(t, args@, 0);
            let trees = expr_trees(args@);
            assert(expr@.kind->Call_args == trees);
            assert forall|x: nat| exprs_ids_from(trees, 0).contains(x) implies exprs_ids(
                trees,
                trees.len(),
            ).contains(x) by {
                let j = choose|j: int| 0 <= j < trees.len() && 0 <= j && expr_ids(trees[j]).contains(x);
                lemma_exprs_holds(trees, trees.len(), j, x);
            }
        },
        ExprKind::Get { object, .. } => {
            lemma_expr_frame(s, object);
        },
        ExprKind::Put { object, value, .. } => {
            lemma_expr_frame(s, value);
            lemma_expr_frame(s.resolve_expr(value)->Ok_0, object);
        },
        _ => {},
    }
}

/// The ids of an expression of a list are ids of the list.
pub proof fn lemma_exprs_holds(es: Seq<ExprTree>, n: nat, j: int, x: nat)
    requires
        0 <= j < n <= es.len(),
        expr_ids(es[j]).contains(x),
    ensures
        exprs_ids(es, n).contains(x),
    decreases n,
{
    if j < n - 1 {
        lemma_exprs_holds(es, (n - 1) as nat, j, x);
    }
}

/// Resolving a list of expressions records nothing of other expressions.
pub proof fn lemma_exprs_frame(s: Static, exprs: Seq<Expr>, from: int)
    requires
        s.resolve_exprs(exprs, from) is Ok,
        0 <= from,
    ensures
        same_off(
            s.resolve_exprs(exprs, from)->Ok_0.locals,
            s.locals,
            exprs_ids_from(expr_trees(exprs), from),
        ),
    decreases exprs, exprs.len() - from,
{
    let trees = expr_trees(exprs);
    if from < exprs.len() {
        lemma_expr_frame(s, &exprs[from]);
        let t = s.resolve_expr(&exprs[from])->Ok_0;
        lemma_exprs_frame(t, exprs, from + 1);
        let end = s.resolve_exprs(exprs, from)->Ok_0;
        assert(trees[from] == exprs[from]@);
        assert forall|k: u64| !exprs_ids_from(trees, from).contains(k as nat) implies (
        #[trigger] end.locals.contains_key(k)) == s.locals.contains_key(k) && (
        end.locals.contains_key(k) ==> end.locals[k] == s.locals[k]) by {
            assert(!expr_ids(trees[from]).contains(k as nat));
            assert(!exprs_ids_from(trees, from + 1).contains(k as nat)) by {
                if exprs_ids_from(trees, from + 1).contains(k as nat) {
                    let j = choose|j: int|
                        from + 1 <= j < trees.len() && 0 <= j && expr_ids(trees[j]).contains(
                            k as nat,
                        );
                    assert(from <= j < trees.len() && 0 <= j && expr_ids(trees[j]).contains(k as nat));
                }
            }
            assert(t.locals.contains_key(k) == s.locals.contains_key(k));
        }
    }
}

/// The walk records every reference of an expression as it should, and
/// what it records stays.
pub proof fn lemma_expr_annotated(s: Static, expr: &Expr, table: Map<u64, usize>)
    requires
        s.resolve_expr(expr) is Ok,
        unique_ids(expr@),
        fresh(s.locals, expr_ids(expr@)),
        same_on(table, s.resolve_expr(expr)->Ok_0.locals, expr_ids(expr@)),
    ensures
        expr_annotated(table, s.scopes, expr),
    decreases expr,
{
    let end = s.resolve_expr(expr)->Ok_0;
    match &expr.kind {
        ExprKind::Var { name } => {
            assert(expr_ids(expr@).contains(expr.id as nat));
            assert(table.contains_key(expr.id) == end.locals.contains_key(expr.id));
            assert(!s.locals.contains_key(expr.id));
        },
        ExprKind::This { token } => {
            assert(expr_ids(expr@).contains(expr.id as nat));
            assert(table.contains_key(expr.id) == end.locals.contains_key(expr.id));
            assert(!s.locals.contains_key(expr.id));
        },
        ExprKind::Super { token, .. } => {
            assert(expr_ids(expr@).contains(expr.id as nat));
            assert(table.contains_key(expr.id) == end.locals.contains_key(expr.id));
            assert(!s.locals.contains_key(expr.id));
        },
        ExprKind::Literal { .. } => {},
        ExprKind::Assign { name, expr: value } => {
            let t = s.resolve_expr(value)->Ok_0;
            theorem_expression_declares_nothing(s, value);
            lemma_expr_frame(s, value);
            assert(expr_ids(expr@).contains(expr.id as nat));
            assert(!expr_ids(value@).contains(expr.id as nat));
            assert(same_on(table, t.locals, expr_ids(value@))) by {
                assert forall|k: u64| expr_ids(value@).contains(k as nat) implies (
                #[trigger] table.contains_key(k)) == t.locals.contains_key(k) && (
                table.contains_key(k) ==> table[k] == t.locals[k]) by {
                    assert(expr_ids(expr@).contains(k as nat));
                    assert(k != expr.id);
                    assert(end.locals.contains_key(k) == t.locals.contains_key(k));
                }
            }
            lemma_expr_annotated(s, value, table);
            assert(table.contains_key(expr.id) == end.locals.contains_key(expr.id));
            assert(!s.locals.contains_key(expr.id));
            assert(t.locals.contains_key(expr.id) == s.locals.contains_key(expr.id));
        },
        ExprKind::Binary { left, right, .. } => {
            lemma_pair_ready(s, left, right, table, expr_ids(expr@));
            lemma_expr_annotated(s, left, table);
            lemma_expr_annotated(s.resolve_expr(left)->Ok_0, right, table);
        },
        ExprKind::Logical { left, right, .. } => {
            lemma_pair_ready(s, left, right, table, expr_ids(expr@));
            lemma_expr_annotated(s, left, table);
            lemma_expr_annotated(s.resolve_expr(left)->Ok_0, right, table);
        },
        ExprKind::Put { object, value, .. } => {
            lemma_pair_ready(s, value, object, table, expr_ids(expr@));
            lemma_expr_annotated(s, value, table);
            lemma_expr_annotated(s.resolve_expr(value)->Ok_0, object, table);
        },
        ExprKind::Grouping { expr: inner } => {
            lemma_expr_annotated(s, inner, table);
        },
        ExprKind::Unary { right, .. } => {
            lemma_expr_annotated(s, right, table);
        },
        ExprKind::Get { object, .. } => {
            lemma_expr_annotated(s, object, table);
        },
        ExprKind::Call { callee, args, .. } => {
            let t = s.resolve_expr(callee)->Ok_0;
            let trees = expr_trees(args@);
            assert(expr@.kind->Call_args == trees);
            theorem_expression_declares_nothing(s, callee);
            lemma_expr_frame(s, callee);
            lemma_exprs_frame(t, args@, 0);
            let listed = exprs_ids(trees, trees.len());
            assert forall|x: nat| exprs_ids_from(trees, 0).contains(x) implies listed.contains(x) by {
                let j = choose|j: int| 0 <= j < trees.len() && 0 <= j && expr_ids(trees[j]).contains(x);
                lemma_exprs_holds(trees, trees.len(), j, x);
            }
            assert(same_on(table, t.locals, expr_ids(callee@))) by {
                assert forall|k: u64| expr_ids(callee@).contains(k as nat) implies (
                #[trigger] table.contains_key(k)) == t.locals.contains_key(k) && (
                table.contains_key(k) ==> table[k] == t.locals[k]) by {
                    assert(expr_ids(expr@).contains(k as nat));
                    assert(!listed.contains(k as nat));
                    assert(!exprs_ids_from(trees, 0).contains(k as nat));
                    assert(end.locals.contains_key(k) == t.locals.contains_key(k));
                }
            }
            lemma_expr_annotated(s, callee, table);
            assert(fresh(t.locals, exprs_ids_from(trees, 0))) by {
                assert forall|k: u64| exprs_ids_from(trees, 0).contains(k as nat) implies !(
                #[trigger] t.locals.contains_key(k)) by {
                    assert(listed.contains(k as nat));
                    assert(!expr_ids(callee@).contains(k as nat));
                    assert(t.locals.contains_key(k) == s.locals.contains_key(k));
                    assert(expr_ids(expr@).contains(k as nat));
                }
            }
            assert(same_on(table, end.locals, exprs_ids_from(trees, 0))) by {
                assert forall|k: u64| exprs_ids_from(trees, 0).contains(k as nat) implies (
                #[trigger] table.contains_key(k)) == end.locals.contains_key(k) && (
                table.contains_key(k) ==> table[k] == end.locals[k]) by {
                    assert(listed.contains(k as nat));
                    assert(expr_ids(expr@).contains(k as nat));
                }
            }
            lemma_exprs_apart(trees, trees.len());
            lemma_exprs_annotated(t, args@, 0, table);
        },
    }
}

/// What holds for each of two expressions that are resolved one after the
/// other, given what holds for both together.
proof fn lemma_pair_ready(
    s: Static,
    first: &Expr,
    second: &Expr,
    table: Map<u64, usize>,
    all: Set<nat>,
)
    requires
        s.resolve_expr(first) is Ok,
        s.resolve_expr(first)->Ok_0.resolve_expr(second) is Ok,
        expr_ids(first@).disjoint(expr_ids(second@)),
        expr_ids(first@).subset_of(all),
        expr_ids(second@).subset_of(all),
        fresh(s.locals, all),
        same_on(table, s.resolve_expr(first)->Ok_0.resolve_expr(second)->Ok_0.locals, all),
    ensures
        s.resolve_expr(first)->Ok_0.scopes == s.scopes,
        fresh(s.locals, expr_ids(first@)),
        same_on(table, s.resolve_expr(first)->Ok_0.locals, expr_ids(first@)),
        fresh(s.resolve_expr(first)->Ok_0.locals, expr_ids(second@)),
        same_on(
            table,
            s.resolve_expr(first)->Ok_0.resolve_expr(second)->Ok_0.locals,
            expr_ids(second@),
        ),
{
    let t = s.resolve_expr(first)->Ok_0;
    let end = t.resolve_expr(second)->Ok_0;
    theorem_expression_declares_nothing(s, first);
    lemma_expr_frame(s, first);
    lemma_expr_frame(t, second);
    assert(same_on(table, t.locals, expr_ids(first@))) by {
        assert forall|k: u64| expr_ids(first@).contains(k as nat) implies (
        #[trigger] table.contains_key(k)) == t.locals.contains_key(k) && (table.contains_key(k)
            ==> table[k] == t.locals[k]) by {
            assert(all.contains(k as nat));
            assert(!expr_ids(second@).contains(k as nat));
            assert(end.locals.contains_key(k) == t.locals.contains_key(k));
        }
    }
    assert(fresh(s.locals, expr_ids(first@))) by {
        assert forall|k: u64| expr_ids(first@).contains(k as nat) implies !(
        #[trigger] s.locals.contains_key(k)) by {
            assert(all.contains(k as nat));
        }
    }
    assert(fresh(t.locals, expr_ids(second@))) by {
        assert forall|k: u64| expr_ids(second@).contains(k as nat) implies !(
        #[trigger] t.locals.contains_key(k)) by {
            assert(all.contains(k as nat));
            assert(!expr_ids(first@).contains(k as nat));
            assert(t.locals.contains_key(k) == s.locals.contains_key(k));
        }
    }
    assert(same_on(table, end.locals, expr_ids(second@))) by {
        assert forall|k: u64| expr_ids(second@).contains(k as nat) implies (
        #[trigger] table.contains_key(k)) == end.locals.contains_key(k) && (table.contains_key(k)
            ==> table[k] == end.locals[k]) by {
            assert(all.contains(k as nat));
        }
    }
}

/// The walk records the references of a list of expressions as it should.
pub proof fn lemma_exprs_annotated(s: Static, exprs: Seq<Expr>, from: int, table: Map<u64, usize>)
    requires
        0 <= from,
        s.resolve_exprs(exprs, from) is Ok,
        forall|i: int| 0 <= i < exprs.len() ==> unique_ids(#[trigger] expr_trees(exprs)[i]),
        forall|i: int, j: int|
            0 <= i < j < exprs.len() ==> (#[trigger] expr_ids(expr_trees(exprs)[i])).disjoint(
                #[trigger] expr_ids(expr_trees(exprs)[j]),
            ),
        fresh(s.locals, exprs_ids_from(expr_trees(exprs), from)),
        same_on(
            table,
            s.resolve_exprs(exprs, from)->Ok_0.locals,
            exprs_ids_from(expr_trees(exprs), from),
        ),
    ensures
        exprs_annotated(table, s.scopes, exprs, from),
    decreases exprs, exprs.len() - from,
{
    let trees = expr_trees(exprs);
    if from < exprs.len() {
        let t = s.resolve_expr(&exprs[from])->Ok_0;
        let end = s.resolve_exprs(exprs, from)->Ok_0;
        let here = expr_ids(exprs[from]@);
        let rest = exprs_ids_from(trees, from + 1);
        assert(trees[from] == exprs[from]@);
        theorem_expression_declares_nothing(s, &exprs[from]);
        lemma_expr_frame(s, &exprs[from]);
        lemma_exprs_frame(t, exprs, from + 1);
        assert forall|x: nat| here.contains(x) implies exprs_ids_from(trees, from).contains(x) by {
            assert(from <= from < trees.len() && 0 <= from && expr_ids(trees[from]).contains(x));
        }
        assert forall|x: nat| rest.contains(x) implies exprs_ids_from(trees, from).contains(x)
            && !here.contains(x) by {
            let j = choose|j: int| from + 1 <= j < trees.len() && 0 <= j && expr_ids(trees[j]).contains(x);
            assert(from <= j < trees.len() && 0 <= j && expr_ids(trees[j]).contains(x));
            assert(expr_ids(trees[from]).disjoint(expr_ids(trees[j])));
        }
        assert(same_on(table, t.locals, here)) by {
            assert forall|k: u64| here.contains(k as nat) implies (#[trigger] table.contains_key(k))
                == t.locals.contains_key(k) && (table.contains_key(k) ==> table[k] == t.locals[k]) by {
                assert(!rest.contains(k as nat));
                assert(end.locals.contains_key(k) == t.locals.contains_key(k));
            }
        }
        assert(fresh(s.locals, here));
        lemma_expr_annotated(s, &exprs[from], table);
        assert(fresh(t.locals, rest)) by {
            assert forall|k: u64| rest.contains(k as nat) implies !(#[trigger] t.locals.contains_key(
                k,
            )) by {
                assert(t.locals.contains_key(k) == s.locals.contains_key(k));
            }
        }
        assert(same_on(table, end.locals, rest));
        lemma_exprs_annotated(t, exprs, from + 1, table);
    }
}

/// The scopes open after the declarations of a list from index `from` on.
pub open spec fn after_decls(scopes: Seq<Names>, decls: Seq<Declaration>, from: int) -> Seq<Names>
    decreases decls, decls.len() - from,
{
    if 0 <= from < decls.len() {
        after_decls(after_decl(scopes, &decls[from]), decls, from + 1)
    } else {
        scopes
    }
}

/// A statement enters names in the innermost scope only.
pub proof fn lemma_after_stmt_keeps_outer(scopes: Seq<Names>, stmt: &Stmt)
    ensures
        after_stmt(scopes, stmt).len() == scopes.len(),
        scopes.len() > 0 ==> after_stmt(scopes, stmt).drop_last() == scopes.drop_last(),
    decreases stmt,
{
    match stmt {
        Stmt::FunctionDecl(decl) => {
            assert(scopes.len() > 0 ==> entered(scopes, decl.identifier@, true).drop_last()
                =~= scopes.drop_last());
        },
        Stmt::ClassDecl(decl) => {
            assert(scopes.len() > 0 ==> entered(scopes, decl.name@, true).drop_last()
                =~= scopes.drop_last());
        },
        Stmt::If { then_branch, else_branch, .. } => {
            lemma_after_stmt_keeps_outer(scopes, then_branch);
            match else_branch {
                Some(other) => {
                    lemma_after_stmt_keeps_outer(after_stmt(scopes, then_branch), other);
                },
                None => {},
            }
        },
        Stmt::While { body, .. } => {
            lemma_after_stmt_keeps_outer(scopes, body);
        },
        _ => {},
    }
}

/// Declarations enter names in the innermost scope only.
pub proof fn lemma_after_decls_keeps_outer(scopes: Seq<Names>, decls: Seq<Declaration>, from: int)
    ensures
        after_decls(scopes, decls, from).len() == scopes.len(),
        scopes.len() > 0 ==> after_decls(scopes, decls, from).drop_last() == scopes.drop_last(),
    decreases decls, decls.len() - from,
{
    if 0 <= from < decls.len() {
        let next = after_decl(scopes, &decls[from]);
        match &decls[from] {
            Declaration::Var { identifier, .. } => {
                assert(scopes.len() > 0 ==> entered(scopes, identifier@, true).drop_last()
                    =~= scopes.drop_last());
            },
            Declaration::Statement(stmt) => {
                lemma_after_stmt_keeps_outer(scopes, stmt);
            },
        }
        lemma_after_decls_keeps_outer(next, decls, from + 1);
    }
}

/// Entering a name twice is entering it the second way.
pub proof fn lemma_entered_twice(scopes: Seq<Names>, name: Seq<char>, first: bool, second: bool)
    ensures
        entered(entered(scopes, name, first), name, second) == entered(scopes, name, second),
{
    if scopes.len() > 0 {
        let once = entered(scopes, name, first);
        assert(once.last().insert(name, second) =~= scopes.last().insert(name, second));
        assert(entered(once, name, second) =~= entered(scopes, name, second));
    }
}

/// Declaring a name and marking it ready enters it, ready, in the
/// innermost scope.
pub proof fn lemma_declared_and_defined(s: Static, name: Seq<char>)
    requires
        s.declare(name) is Ok,
    ensures
        s.declare(name)->Ok_0.scopes == entered(s.scopes, name, false),
        s.declare(name)->Ok_0.define(name).scopes == entered(s.scopes, name, true),
        s.declare(name)->Ok_0.locals == s.locals,
{
    lemma_entered_twice(s.scopes, name, false, true);
}

/// The parameters of a function fill the scope opened for them.
pub proof fn lemma_parameters_scope(s: Static, params: Seq<Token>, n: nat)
    requires
        s.scopes.len() > 0,
        s.scopes.last() == Map::<Seq<char>, bool>::empty(),
        s.declare_parameters(params, n) is Ok,
    ensures
        ({
            let t = s.declare_parameters(params, n)->Ok_0;
            &&& t.scopes == s.scopes.drop_last().push(parameter_scope(params, n))
            &&& t.locals == s.locals
            &&& t.function == s.function
            &&& t.class == s.class
        }),
    decreases n,
{
    if n == 0 {
        assert(s.scopes =~= s.scopes.drop_last().push(parameter_scope(params, 0)));
    } else {
        lemma_parameters_scope(s, params, (n - 1) as nat);
        let before = s.declare_parameters(params, (n - 1) as nat)->Ok_0;
        let t = s.declare_parameters(params, n)->Ok_0;
        let name = params[n - 1].lexeme@;
        lemma_declared_and_defined(before, name);
        assert(t.scopes == entered(before.scopes, name, true));
        assert(before.scopes.last() == parameter_scope(params, (n - 1) as nat));
        assert(t.scopes =~= s.scopes.drop_last().push(parameter_scope(params, n)));
    }
}

/// Where the walk is after a statement.
pub proof fn lemma_stmt_scopes(s: Static, stmt: &Stmt)
    requires
        s.resolve_stmt(stmt) is Ok,
    ensures
        ({
            let t = s.resolve_stmt(stmt)->Ok_0;
            &&& t.scopes == after_stmt(s.scopes, stmt)
            &&& t.function == s.function
            &&& t.class == s.class
        }),
    decreases stmt,
{
    let t = s.resolve_stmt(stmt)->Ok_0;
    match stmt {
        Stmt::Expr(expr) => {
            theorem_expression_declares_nothing(s, expr);
        },
        Stmt::Print(expr) => {
            theorem_expression_declares_nothing(s, expr);
        },
        Stmt::Return { value } => {
            match value {
                Some(expr) => {
                    theorem_expression_declares_nothing(s, expr);
                },
                None => {},
            }
        },
        Stmt::FunctionDecl(decl) => {
            let named = s.declare(decl.identifier@)->Ok_0.define(decl.identifier@);
            lemma_function_is_balanced(named, decl, FunctionType::Function);
            lemma_declared_and_defined(s, decl.identifier@);
        },
        Stmt::If { condition, then_branch, else_branch } => {
            theorem_expression_declares_nothing(s, condition);
            let a = s.resolve_expr(condition)->Ok_0;
            lemma_stmt_scopes(a, then_branch);
            match else_branch {
                Some(other) => {
                    lemma_stmt_scopes(a.resolve_stmt(then_branch)->Ok_0, other);
                },
                None => {},
            }
        },
        Stmt::While { condition, body } => {
            theorem_expression_declares_nothing(s, condition);
            lemma_stmt_scopes(s.resolve_expr(condition)->Ok_0, body);
        },
        Stmt::Block(decls) => {
            let inside = s.begin_scope();
            lemma_decls_scopes(inside, decls@, 0);
            lemma_after_decls_keeps_outer(inside.scopes, decls@, 0);
            assert(inside.scopes.drop_last() =~= s.scopes);
            assert(t.scopes =~= s.scopes);
        },
        Stmt::ClassDecl(decl) => {
            let begun = s.begin_class(decl)->Ok_0;
            lemma_methods_are_balanced(begun, decl.methods@, 0);
            lemma_class_scopes(s, decl);
            let done = begun.resolve_methods(decl.methods@, 0)->Ok_0;
            let named = entered(s.scopes, decl.name@, true);
            if decl.superclass is Some {
                assert(done.scopes.drop_last().drop_last() =~= named);
            } else {
                assert(done.scopes.drop_last() =~= named);
            }
        },
    }
}

/// Where the walk is inside the methods of a class.
pub proof fn lemma_class_scopes(s: Static, decl: &ClassDecl)
    requires
        s.begin_class(decl) is Ok,
    ensures
        s.begin_class(decl)->Ok_0.scopes == method_scopes(s.scopes, decl),
        s.begin_class(decl)->Ok_0.function == s.function,
{
    lemma_declared_and_defined(Static { class: crate::resolver::ClassType::Class, ..s }, decl.name@);
}

/// Where the walk is after a declaration.
pub proof fn lemma_decl_scopes(s: Static, decl: &Declaration)
    requires
        s.resolve_decl(decl) is Ok,
    ensures
        ({
            let t = s.resolve_decl(decl)->Ok_0;
            &&& t.scopes == after_decl(s.scopes, decl)
            &&& t.function == s.function
            &&& t.class == s.class
        }),
    decreases decl,
{
    match decl {
        Declaration::Var { identifier, expression } => {
            let declared = s.declare(identifier@)->Ok_0;
            theorem_expression_declares_nothing(declared, expression);
            lemma_declared_and_defined(s, identifier@);
        },
        Declaration::Statement(stmt) => {
            lemma_stmt_scopes(s, stmt);
        },
    }
}

/// Where the walk is after the declarations of a list.
pub proof fn lemma_decls_scopes(s: Static, decls: Seq<Declaration>, from: int)
    requires
        s.resolve_decls(decls, from) is Ok,
    ensures
        ({
            let t = s.resolve_decls(decls, from)->Ok_0;
            &&& t.scopes == after_decls(s.scopes, decls, from)
            &&& t.function == s.function
            &&& t.class == s.class
        }),
    decreases decls, decls.len() - from,
{
    if 0 <= from < decls.len() {
        lemma_decl_scopes(s, &decls[from]);
        lemma_decls_scopes(s.resolve_decl(&decls[from])->Ok_0, decls, from + 1);
    }
}

/// The ids of the expressions in the declarations of a list from index
/// `from` on.
pub open spec fn decls_ids_from(ds: Seq<DeclTree>, from: int) -> Set<nat> {
    Set::new(|x: nat| exists|j: int| from <= j < ds.len() && 0 <= j && decl_ids(ds[j]).contains(x))
}

/// The ids of the expressions in the functions of a list from index `from`
/// on.
pub open spec fn functions_ids_from(fs: Seq<FunctionTree>, from: int) -> Set<nat> {
    Set::new(
        |x: nat|
            exists|j: int|
                from <= j < fs.len() && 0 <= j && decls_ids(fs[j].body, fs[j].body.len()).contains(
                    x,
                ),
    )
}

/// The ids of a declaration of a list are ids of the list.
pub proof fn lemma_decls_holds(ds: Seq<DeclTree>, n: nat, j: int, x: nat)
    requires
        0 <= j < n <= ds.len(),
        decl_ids(ds[j]).contains(x),
    ensures
        decls_ids(ds, n).contains(x),
    decreases n,
{
    if j < n - 1 {
        lemma_decls_holds(ds, (n - 1) as nat, j, x);
    }
}

/// Declarations of a list whose expressions have ids of their own share no
/// id.
pub proof fn lemma_decls_apart(ds: Seq<DeclTree>, n: nat)
    requires
        n <= ds.len(),
        unique_decls(ds, n),
    ensures
        forall|i: int| 0 <= i < n ==> unique_decl(#[trigger] ds[i]),
        forall|i: int, j: int|
            0 <= i < j < n ==> (#[trigger] decl_ids(ds[i])).disjoint(#[trigger] decl_ids(ds[j])),
    decreases n,
{
    if n > 0 {
        lemma_decls_apart(ds, (n - 1) as nat);
        let before = decls_ids(ds, (n - 1) as nat);
        assert(before.disjoint(decl_ids(ds[n - 1])));
        assert forall|i: int, j: int| 0 <= i < j < n implies (#[trigger] decl_ids(ds[i])).disjoint(
            #[trigger] decl_ids(ds[j]),
        ) by {
            if j == n - 1 {
                assert forall|x: nat| !(decl_ids(ds[i]).contains(x) && decl_ids(ds[j]).contains(x)) by {
                    if decl_ids(ds[i]).contains(x) {
                        lemma_decls_holds(ds, (n - 1) as nat, i, x);
                    }
                }
            }
        }
    }
}

/// The ids of a function of a list are ids of the list.
pub proof fn lemma_functions_holds(fs: Seq<FunctionTree>, n: nat, j: int, x: nat)
    requires
        0 <= j < n <= fs.len(),
        decls_ids(fs[j].body, fs[j].body.len()).contains(x),
    ensures
        functions_ids(fs, n).contains(x),
    decreases n,
{
    if j < n - 1 {
        lemma_functions_holds(fs, (n - 1) as nat, j, x);
    }
}

/// Functions of a list whose expressions have ids of their own share no
/// id.
pub proof fn lemma_functions_apart(fs: Seq<FunctionTree>, n: nat)
    requires
        n <= fs.len(),
        unique_functions(fs, n),
    ensures
        forall|i: int| 0 <= i < n ==> unique_decls((#[trigger] fs[i]).body, fs[i].body.len()),
        forall|i: int, j: int|
            0 <= i < j < n ==> (#[trigger] decls_ids(fs[i].body, fs[i].body.len())).disjoint(
                #[trigger] decls_ids(fs[j].body, fs[j].body.len()),
            ),
    decreases n,
{
    if n > 0 {
        lemma_functions_apart(fs, (n - 1) as nat);
        let before = functions_ids(fs, (n - 1) as nat);
        let last = decls_ids(fs[n - 1].body, fs[n - 1].body.len());
        assert(before.disjoint(last));
        assert forall|i: int, j: int| 0 <= i < j < n implies (#[trigger] decls_ids(
            fs[i].body,
            fs[i].body.len(),
        )).disjoint(#[trigger] decls_ids(fs[j].body, fs[j].body.len())) by {
            if j == n - 1 {
                let mine = decls_ids(fs[i].body, fs[i].body.len());
                assert forall|x: nat| !(mine.contains(x) && last.contains(x)) by {
                    if mine.contains(x) {
                        lemma_functions_holds(fs, (n - 1) as nat, i, x);
                    }
                }
            }
        }
    }
}

/// The ids of a list from its start on are ids of the list.
pub proof fn lemma_decls_from_start(ds: Seq<DeclTree>)
    ensures
        decls_ids_from(ds, 0).subset_of(decls_ids(ds, ds.len())),
{
    assert forall|x: nat| decls_ids_from(ds, 0).contains(x) implies decls_ids(ds, ds.len()).contains(
        x,
    ) by {
        let j = choose|j: int| 0 <= j < ds.len() && 0 <= j && decl_ids(ds[j]).contains(x);
        lemma_decls_holds(ds, ds.len(), j, x);
    }
}

/// The ids of a list of functions from its start on are ids of the list.
pub proof fn lemma_functions_from_start(fs: Seq<FunctionTree>)
    ensures
        functions_ids_from(fs, 0).subset_of(functions_ids(fs, fs.len())),
{
    assert forall|x: nat| functions_ids_from(fs, 0).contains(x) implies functions_ids(
        fs,
        fs.len(),
    ).contains(x) by {
        let j = choose|j: int|
            0 <= j < fs.len() && 0 <= j && decls_ids(fs[j].body, fs[j].body.len()).contains(x);
        lemma_functions_holds(fs, fs.len(), j, x);
    }
}

/// Tables that say the same off a set say the same off a larger set.
pub proof fn lemma_same_off_wider(
    a: Map<u64, usize>,
    b: Map<u64, usize>,
    small: Set<nat>,
    big: Set<nat>,
)
    requires
        same_off(a, b, small),
        small.subset_of(big),
    ensures
        same_off(a, b, big),
{
    assert forall|k: u64| !big.contains(k as nat) implies (#[trigger] a.contains_key(k))
        == b.contains_key(k) && (a.contains_key(k) ==> a[k] == b[k]) by {
        assert(!small.contains(k as nat));
    }
}

/// Saying the same off a set carries over two tables.
pub proof fn lemma_same_off_twice(
    a: Map<u64, usize>,
    b: Map<u64, usize>,
    c: Map<u64, usize>,
    ids: Set<nat>,
)
    requires
        same_off(a, b, ids),
        same_off(b, c, ids),
    ensures
        same_off(a, c, ids),
{
    assert forall|k: u64| !ids.contains(k as nat) implies (#[trigger] a.contains_key(k))
        == c.contains_key(k) && (a.contains_key(k) ==> a[k] == c[k]) by {
        assert(b.contains_key(k) == c.contains_key(k));
    }
}

/// Resolving a statement records nothing of expressions outside it.
pub proof fn lemma_stmt_frame(s: Static, stmt: &Stmt)
    requires
        s.resolve_stmt(stmt) is Ok,
    ensures
        same_off(s.resolve_stmt(stmt)->Ok_0.locals, s.locals, stmt_ids(stmt@)),
    decreases stmt,
{
    let end = s.resolve_stmt(stmt)->Ok_0;
    let all = stmt_ids(stmt@);
    match stmt {
        Stmt::Expr(expr) => {
            lemma_expr_frame(s, expr);
        },
        Stmt::Print(expr) => {
            lemma_expr_frame(s, expr);
        },
        Stmt::Return { value } => {
            match value {
                Some(expr) => {
                    lemma_expr_frame(s, expr);
                },
                None => {},
            }
        },
        Stmt::FunctionDecl(decl) => {
            let named = s.declare(decl.identifier@)->Ok_0.define(decl.identifier@);
            lemma_function_frame(named, decl, FunctionType::Function);
            assert(stmt@ == crate::syntax::StmtTree::FunctionDecl(decl@));
        },
        Stmt::If { condition, then_branch, else_branch } => {
            lemma_expr_frame(s, condition);
            let a = s.resolve_expr(condition)->Ok_0;
            lemma_stmt_frame(a, then_branch);
            let b = a.resolve_stmt(then_branch)->Ok_0;
            lemma_same_off_wider(a.locals, s.locals, expr_ids(condition@), all);
            lemma_same_off_wider(b.locals, a.locals, stmt_ids(then_branch@), all);
            lemma_same_off_twice(b.locals, a.locals, s.locals, all);
            match else_branch {
                Some(other) => {
                    lemma_stmt_frame(b, other);
                    lemma_same_off_wider(end.locals, b.locals, stmt_ids(other@), all);
                    lemma_same_off_twice(end.locals, b.locals, s.locals, all);
                },
                None => {},
            }
        },
        Stmt::While { condition, body } => {
            lemma_expr_frame(s, condition);
            let a = s.resolve_expr(condition)->Ok_0;
            lemma_stmt_frame(a, body);
            lemma_same_off_wider(a.locals, s.locals, expr_ids(condition@), all);
            lemma_same_off_wider(end.locals, a.locals, stmt_ids(body@), all);
            lemma_same_off_twice(end.locals, a.locals, s.locals, all);
        },
        Stmt::Block(decls) => {
            let inside = s.begin_scope();
            lemma_decls_frame(inside, decls@, 0);
            lemma_decls_from_start(decl_trees(decls@));
            let done = inside.resolve_decls(decls@, 0)->Ok_0;
            lemma_same_off_wider(
                done.locals,
                inside.locals,
                decls_ids_from(decl_trees(decls@), 0),
                all,
            );
        },
        Stmt::ClassDecl(decl) => {
            lemma_class_frame(s, decl);
            assert(stmt@ == crate::syntax::StmtTree::ClassDecl(crate::syntax::class_tree(decl)));
        },
    }
}

/// The ids of the expressions in a class declaration.
pub open spec fn class_ids(decl: &ClassDecl) -> Set<nat> {
    stmt_ids(crate::syntax::StmtTree::ClassDecl(crate::syntax::class_tree(decl)))
}

/// Resolving a class declaration records nothing of expressions outside
/// it.
pub proof fn lemma_class_frame(s: Static, decl: &ClassDecl)
    requires
        s.begin_class(decl) is Ok,
        s.begin_class(decl)->Ok_0.resolve_methods(decl.methods@, 0) is Ok,
    ensures
        same_off(
            s.begin_class(decl)->Ok_0.resolve_methods(decl.methods@, 0)->Ok_0.locals,
            s.locals,
            class_ids(decl),
        ),
        same_off(s.begin_class(decl)->Ok_0.locals, s.locals, class_ids(decl)),
        decl.superclass matches Some(expr) ==> class_ids(decl) == expr_ids(expr@).union(
            functions_ids(function_trees(decl.methods@), decl.methods@.len() as nat),
        ) && expr_ids(expr@) == Set::<nat>::empty().insert(expr.id as nat),
        decl.superclass is None ==> class_ids(decl) == functions_ids(
            function_trees(decl.methods@),
            decl.methods@.len() as nat,
        ) && s.begin_class(decl)->Ok_0.locals == s.locals,
    decreases decl,
{
    let all = class_ids(decl);
    let begun = s.begin_class(decl)->Ok_0;
    let trees = function_trees(decl.methods@);
    let tree = crate::syntax::class_tree(decl);
    assert(tree.methods == trees);
    lemma_methods_frame(begun, decl.methods@, 0);
    lemma_functions_from_start(trees);
    let done = begun.resolve_methods(decl.methods@, 0)->Ok_0;
    let listed = functions_ids(trees, trees.len());
    match &decl.superclass {
        Some(expr) => {
            assert(tree.superclass == Some(expr@));
            assert(all == expr_ids(expr@).union(listed));
            assert(expr_ids(expr@) =~= Set::<nat>::empty().insert(expr.id as nat));
            assert(all.contains(expr.id as nat));
            assert(same_off(begun.locals, s.locals, all));
        },
        None => {
            assert(tree.superclass is None);
            assert(all == listed);
            assert(begun.locals == s.locals);
        },
    }
    assert(listed.subset_of(all));
    lemma_same_off_wider(done.locals, begun.locals, functions_ids_from(trees, 0), all);
    lemma_same_off_twice(done.locals, begun.locals, s.locals, all);
}

/// Resolving a declaration records nothing of expressions outside it.
pub proof fn lemma_decl_frame(s: Static, decl: &Declaration)
    requires
        s.resolve_decl(decl) is Ok,
    ensures
        same_off(s.resolve_decl(decl)->Ok_0.locals, s.locals, decl_ids(decl@)),
    decreases decl,
{
    match decl {
        Declaration::Var { identifier, expression } => {
            lemma_expr_frame(s.declare(identifier@)->Ok_0, expression);
        },
        Declaration::Statement(stmt) => {
            lemma_stmt_frame(s, stmt);
        },
    }
}

/// Resolving a list of declarations records nothing of expressions outside
/// them.
pub proof fn lemma_decls_frame(s: Static, decls: Seq<Declaration>, from: int)
    requires
        s.resolve_decls(decls, from) is Ok,
        0 <= from,
    ensures
        same_off(
            s.resolve_decls(decls, from)->Ok_0.locals,
            s.locals,
            decls_ids_from(decl_trees(decls), from),
        ),
    decreases decls, decls.len() - from,
{
    let trees = decl_trees(decls);
    if from < decls.len() {
        lemma_decl_frame(s, &decls[from]);
        let t = s.resolve_decl(&decls[from])->Ok_0;
        lemma_decls_frame(t, decls, from + 1);
        let end = s.resolve_decls(decls, from)->Ok_0;
        assert(trees[from] == decls[from]@);
        assert forall|k: u64| !decls_ids_from(trees, from).contains(k as nat) implies (
        #[trigger] end.locals.contains_key(k)) == s.locals.contains_key(k) && (
        end.locals.contains_key(k) ==> end.locals[k] == s.locals[k]) by {
            assert(!decl_ids(trees[from]).contains(k as nat));
            assert(!decls_ids_from(trees, from + 1).contains(k as nat)) by {
                if decls_ids_from(trees, from + 1).contains(k as nat) {
                    let j = choose|j: int|
                        from + 1 <= j < trees.len() && 0 <= j && decl_ids(trees[j]).contains(
                            k as nat,
                        );
                    assert(from <= j < trees.len() && 0 <= j && decl_ids(trees[j]).contains(k as nat));
                }
            }
            assert(t.locals.contains_key(k) == s.locals.contains_key(k));
        }
    }
}

/// Resolving a function records nothing of expressions outside it.
pub proof fn lemma_function_frame(s: Static, decl: &FunctionStmt, kind: FunctionType)
    requires
        s.resolve_function(decl, kind) is Ok,
    ensures
        same_off(
            s.resolve_function(decl, kind)->Ok_0.locals,
            s.locals,
            decls_ids(decl@.body, decl@.body.len()),
        ),
    decreases decl,
{
    let inside = Static { function: kind, ..s }.begin_scope();
    lemma_parameters_scope(inside, decl.parameters@, decl.parameters@.len());
    let declared = inside.declare_parameters(decl.parameters@, decl.parameters@.len())->Ok_0;
    lemma_decls_frame(declared, decl.body@, 0);
    lemma_decls_from_start(decl_trees(decl.body@));
}

/// Resolving a list of methods records nothing of expressions outside
/// them.
pub proof fn lemma_methods_frame(s: Static, methods: Seq<FunctionStmt>, from: int)
    requires
        s.resolve_methods(methods, from) is Ok,
        0 <= from,
    ensures
        same_off(
            s.resolve_methods(methods, from)->Ok_0.locals,
            s.locals,
            functions_ids_from(function_trees(methods), from),
        ),
    decreases methods, methods.len() - from,
{
    let trees = function_trees(methods);
    if from < methods.len() {
        let kind = if methods[from].identifier@ == "init"@ {
            FunctionType::Initializer
        } else {
            FunctionType::Method
        };
        lemma_function_frame(s, &methods[from], kind);
        let t = s.resolve_function(&methods[from], kind)->Ok_0;
        lemma_methods_frame(t, methods, from + 1);
        let end = s.resolve_methods(methods, from)->Ok_0;
        assert(trees[from] == methods[from]@);
        assert forall|k: u64| !functions_ids_from(trees, from).contains(k as nat) implies (
        #[trigger] end.locals.contains_key(k)) == s.locals.contains_key(k) && (
        end.locals.contains_key(k) ==> end.locals[k] == s.locals[k]) by {
            assert(!decls_ids(trees[from].body, trees[from].body.len()).contains(k as nat));
            assert(!functions_ids_from(trees, from + 1).contains(k as nat)) by {
                if functions_ids_from(trees, from + 1).contains(k as nat) {
                    let j = choose|j: int|
                        from + 1 <= j < trees.len() && 0 <= j && decls_ids(
                            trees[j].body,
                            trees[j].body.len(),
                        ).contains(k as nat);
                    assert(from <= j < trees.len() && 0 <= j && decls_ids(
                        trees[j].body,
                        trees[j].body.len(),
                    ).contains(k as nat));
                }
            }
            assert(t.locals.contains_key(k) == s.locals.contains_key(k));
        }
    }
}

/// What holds of each of two parts of a program that are resolved one
/// after the other, given what holds of both together: before the walk
/// the table says nothing of either; what it says of the first part after
/// that part is what it says at the end; and it says nothing of the second
/// part before that part.
pub proof fn lemma_two_parts(
    start: Map<u64, usize>,
    middle: Map<u64, usize>,
    end: Map<u64, usize>,
    table: Map<u64, usize>,
    first: Set<nat>,
    second: Set<nat>,
    all: Set<nat>,
)
    requires
        same_off(middle, start, first),
        same_off(end, middle, second),
        first.disjoint(second),
        first.subset_of(all),
        second.subset_of(all),
        fresh(start, all),
        same_on(table, end, all),
    ensures
        fresh(start, first),
        same_on(table, middle, first),
        fresh(middle, second),
        same_on(table, end, second),
{
    assert forall|k: u64| first.contains(k as nat) implies (#[trigger] table.contains_key(k))
        == middle.contains_key(k) && (table.contains_key(k) ==> table[k] == middle[k]) by {
        assert(all.contains(k as nat));
        assert(!second.contains(k as nat));
        assert(end.contains_key(k) == middle.contains_key(k));
    }
    assert forall|k: u64| first.contains(k as nat) implies !(#[trigger] start.contains_key(k)) by {
        assert(all.contains(k as nat));
    }
    assert forall|k: u64| second.contains(k as nat) implies !(#[trigger] middle.contains_key(k)) by {
        assert(all.contains(k as nat));
        assert(!first.contains(k as nat));
        assert(middle.contains_key(k) == start.contains_key(k));
    }
    assert forall|k: u64| second.contains(k as nat) implies (#[trigger] table.contains_key(k))
        == end.contains_key(k) && (table.contains_key(k) ==> table[k] == end[k]) by {
        assert(all.contains(k as nat));
    }
}

/// What holds of a set of ids holds of a smaller one.
pub proof fn lemma_narrower(
    start: Map<u64, usize>,
    end: Map<u64, usize>,
    table: Map<u64, usize>,
    small: Set<nat>,
    big: Set<nat>,
)
    requires
        small.subset_of(big),
        fresh(start, big),
        same_on(table, end, big),
    ensures
        fresh(start, small),
        same_on(table, end, small),
{
    assert forall|k: u64| small.contains(k as nat) implies !(#[trigger] start.contains_key(k)) by {
        assert(big.contains(k as nat));
    }
    assert forall|k: u64| small.contains(k as nat) implies (#[trigger] table.contains_key(k))
        == end.contains_key(k) && (table.contains_key(k) ==> table[k] == end[k]) by {
        assert(big.contains(k as nat));
    }
}

/// The walk records every reference of a statement as it should, and what
/// it records stays.
pub proof fn lemma_stmt_annotated(s: Static, stmt: &Stmt, table: Map<u64, usize>)
    requires
        s.resolve_stmt(stmt) is Ok,
        unique_stmt(stmt@),
        fresh(s.locals, stmt_ids(stmt@)),
        same_on(table, s.resolve_stmt(stmt)->Ok_0.locals, stmt_ids(stmt@)),
    ensures
        stmt_annotated(table, s.scopes, stmt),
    decreases stmt,
{
    let end = s.resolve_stmt(stmt)->Ok_0;
    let all = stmt_ids(stmt@);
    match stmt {
        Stmt::Expr(expr) => {
            lemma_expr_annotated(s, expr, table);
        },
        Stmt::Print(expr) => {
            lemma_expr_annotated(s, expr, table);
        },
        Stmt::Return { value } => {
            match value {
                Some(expr) => {
                    lemma_expr_annotated(s, expr, table);
                },
                None => {},
            }
        },
        Stmt::FunctionDecl(decl) => {
            let named = s.declare(decl.identifier@)->Ok_0.define(decl.identifier@);
            lemma_declared_and_defined(s, decl.identifier@);
            assert(stmt@ == StmtTree::FunctionDecl(decl@));
            lemma_function_annotated(named, decl, FunctionType::Function, table);
        },
        Stmt::If { condition, then_branch, else_branch } => {
            let a = s.resolve_expr(condition)->Ok_0;
            let b = a.resolve_stmt(then_branch)->Ok_0;
            theorem_expression_declares_nothing(s, condition);
            lemma_expr_frame(s, condition);
            lemma_stmt_frame(a, then_branch);
            lemma_stmt_scopes(a, then_branch);
            let first = expr_ids(condition@);
            let second = stmt_ids(then_branch@);
            match else_branch {
                Some(other) => {
                    let third = stmt_ids(other@);
                    let rest = second.union(third);
                    lemma_stmt_frame(b, other);
                    lemma_same_off_wider(b.locals, a.locals, second, rest);
                    lemma_same_off_wider(end.locals, b.locals, third, rest);
                    lemma_same_off_twice(end.locals, b.locals, a.locals, rest);
                    assert(first.disjoint(rest));
                    assert(all == first.union(second).union(third));
                    lemma_two_parts(s.locals, a.locals, end.locals, table, first, rest, all);
                    lemma_two_parts(a.locals, b.locals, end.locals, table, second, third, rest);
                    lemma_expr_annotated(s, condition, table);
                    lemma_stmt_annotated(a, then_branch, table);
                    lemma_stmt_annotated(b, other, table);
                },
                None => {
                    lemma_two_parts(s.locals, a.locals, end.locals, table, first, second, all);
                    lemma_expr_annotated(s, condition, table);
                    lemma_stmt_annotated(a, then_branch, table);
                },
            }
        },
        Stmt::While { condition, body } => {
            let a = s.resolve_expr(condition)->Ok_0;
            theorem_expression_declares_nothing(s, condition);
            lemma_expr_frame(s, condition);
            lemma_stmt_frame(a, body);
            lemma_two_parts(
                s.locals,
                a.locals,
                end.locals,
                table,
                expr_ids(condition@),
                stmt_ids(body@),
                all,
            );
            lemma_expr_annotated(s, condition, table);
            lemma_stmt_annotated(a, body, table);
        },
        Stmt::Block(decls) => {
            let inside = s.begin_scope();
            let trees = decl_trees(decls@);
            lemma_decls_from_start(trees);
            lemma_narrower(
                inside.locals,
                inside.resolve_decls(decls@, 0)->Ok_0.locals,
                table,
                decls_ids_from(trees, 0),
                all,
            );
            lemma_decls_apart(trees, trees.len());
            lemma_decls_annotated(inside, decls@, 0, table);
        },
        Stmt::ClassDecl(decl) => {
            assert(stmt@ == StmtTree::ClassDecl(class_tree(decl)));
            lemma_class_annotated(s, decl, table);
        },
    }
}

/// The walk records every reference of a class declaration as it should.
pub proof fn lemma_class_annotated(s: Static, decl: &ClassDecl, table: Map<u64, usize>)
    requires
        s.begin_class(decl) is Ok,
        s.begin_class(decl)->Ok_0.resolve_methods(decl.methods@, 0) is Ok,
        unique_stmt(StmtTree::ClassDecl(class_tree(decl))),
        fresh(s.locals, class_ids(decl)),
        same_on(
            table,
            s.begin_class(decl)->Ok_0.resolve_methods(decl.methods@, 0)->Ok_0.locals,
            class_ids(decl),
        ),
    ensures
        decl.superclass matches Some(expr) ==> expr_annotated(
            table,
            entered(s.scopes, decl.name@, true),
            &expr,
        ),
        methods_annotated(table, method_scopes(s.scopes, decl), decl.methods@, 0),
    decreases decl,
{
    let all = class_ids(decl);
    let begun = s.begin_class(decl)->Ok_0;
    let done = begun.resolve_methods(decl.methods@, 0)->Ok_0;
    let trees = function_trees(decl.methods@);
    let tree = class_tree(decl);
    let listed = functions_ids(trees, trees.len());
    assert(tree.methods == trees);
    lemma_class_frame(s, decl);
    lemma_class_scopes(s, decl);
    lemma_methods_frame(begun, decl.methods@, 0);
    lemma_functions_from_start(trees);
    lemma_functions_apart(trees, trees.len());
    lemma_same_off_wider(done.locals, begun.locals, functions_ids_from(trees, 0), listed);
    match &decl.superclass {
        Some(expr) => {
            assert(tree.superclass == Some(expr@));
            let named = (Static { class: crate::resolver::ClassType::Class, ..s }).declare(
                decl.name@,
            )->Ok_0.define(decl.name@);
            lemma_declared_and_defined(
                Static { class: crate::resolver::ClassType::Class, ..s },
                decl.name@,
            );
            let inherits = Static { class: crate::resolver::ClassType::SubClass, ..named };
            let first = expr_ids(expr@);
            assert(same_off(begun.locals, inherits.locals, first)) by {
                lemma_expr_frame(inherits, expr);
            }
            lemma_two_parts(inherits.locals, begun.locals, done.locals, table, first, listed, all);
            lemma_expr_annotated(inherits, expr, table);
            lemma_narrower(begun.locals, done.locals, table, functions_ids_from(trees, 0), listed);
        },
        None => {
            assert(tree.superclass is None);
            lemma_narrower(begun.locals, done.locals, table, functions_ids_from(trees, 0), all);
        },
    }
    lemma_methods_annotated(begun, decl.methods@, 0, table);
}

/// The walk records every reference of a declaration as it should.
pub proof fn lemma_decl_annotated(s: Static, decl: &Declaration, table: Map<u64, usize>)
    requires
        s.resolve_decl(decl) is Ok,
        unique_decl(decl@),
        fresh(s.locals, decl_ids(decl@)),
        same_on(table, s.resolve_decl(decl)->Ok_0.locals, decl_ids(decl@)),
    ensures
        decl_annotated(table, s.scopes, decl),
    decreases decl,
{
    match decl {
        Declaration::Var { identifier, expression } => {
            lemma_declared_and_defined(s, identifier@);
            lemma_expr_annotated(s.declare(identifier@)->Ok_0, expression, table);
        },
        Declaration::Statement(stmt) => {
            lemma_stmt_annotated(s, stmt, table);
        },
    }
}

/// The walk records every reference of a list of declarations as it
/// should.
pub proof fn lemma_decls_annotated(
    s: Static,
    decls: Seq<Declaration>,
    from: int,
    table: Map<u64, usize>,
)
    requires
        0 <= from,
        s.resolve_decls(decls, from) is Ok,
        forall|i: int| 0 <= i < decls.len() ==> unique_decl(#[trigger] decl_trees(decls)[i]),
        forall|i: int, j: int|
            0 <= i < j < decls.len() ==> (#[trigger] decl_ids(decl_trees(decls)[i])).disjoint(
                #[trigger] decl_ids(decl_trees(decls)[j]),
            ),
        fresh(s.locals, decls_ids_from(decl_trees(decls), from)),
        same_on(
            table,
            s.resolve_decls(decls, from)->Ok_0.locals,
            decls_ids_from(decl_trees(decls), from),
        ),
    ensures
        decls_annotated(table, s.scopes, decls, from),
    decreases decls, decls.len() - from,
{
    let trees = decl_trees(decls);
    if from < decls.len() {
        let t = s.resolve_decl(&decls[from])->Ok_0;
        let end = s.resolve_decls(decls, from)->Ok_0;
        let here = decl_ids(decls[from]@);
        let rest = decls_ids_from(trees, from + 1);
        let all = decls_ids_from(trees, from);
        assert(trees[from] == decls[from]@);
        lemma_decl_scopes(s, &decls[from]);
        lemma_decl_frame(s, &decls[from]);
        lemma_decls_frame(t, decls, from + 1);
        assert forall|x: nat| here.contains(x) implies all.contains(x) by {
            assert(from <= from < trees.len() && 0 <= from && decl_ids(trees[from]).contains(x));
        }
        assert forall|x: nat| rest.contains(x) implies all.contains(x) && !here.contains(x) by {
            let j = choose|j: int| from + 1 <= j < trees.len() && 0 <= j && decl_ids(trees[j]).contains(x);
            assert(from <= j < trees.len() && 0 <= j && decl_ids(trees[j]).contains(x));
            assert(decl_ids(trees[from]).disjoint(decl_ids(trees[j])));
        }
        lemma_two_parts(s.locals, t.locals, end.locals, table, here, rest, all);
        lemma_decl_annotated(s, &decls[from], table);
        lemma_decls_annotated(t, decls, from + 1, table);
    }
}

/// The walk records every reference of a function as it should.
pub proof fn lemma_function_annotated(
    s: Static,
    decl: &FunctionStmt,
    kind: FunctionType,
    table: Map<u64, usize>,
)
    requires
        s.resolve_function(decl, kind) is Ok,
        unique_decls(decl@.body, decl@.body.len()),
        fresh(s.locals, decls_ids(decl@.body, decl@.body.len())),
        same_on(
            table,
            s.resolve_function(decl, kind)->Ok_0.locals,
            decls_ids(decl@.body, decl@.body.len()),
        ),
    ensures
        function_annotated(table, s.scopes, decl),
    decreases decl,
{
    let inside = Static { function: kind, ..s }.begin_scope();
    lemma_parameters_scope(inside, decl.parameters@, decl.parameters@.len());
    let declared = inside.declare_parameters(decl.parameters@, decl.parameters@.len())->Ok_0;
    let trees = decl_trees(decl.body@);
    assert(decl@.body == trees);
    assert(inside.scopes.drop_last() =~= s.scopes);
    lemma_decls_from_start(trees);
    lemma_narrower(
        declared.locals,
        declared.resolve_decls(decl.body@, 0)->Ok_0.locals,
        table,
        decls_ids_from(trees, 0),
        decls_ids(trees, trees.len()),
    );
    lemma_decls_apart(trees, trees.len());
    lemma_decls_annotated(declared, decl.body@, 0, table);
}

/// The walk records every reference of a list of methods as it should.
pub proof fn lemma_methods_annotated(
    s: Static,
    methods: Seq<FunctionStmt>,
    from: int,
    table: Map<u64, usize>,
)
    requires
        0 <= from,
        s.resolve_methods(methods, from) is Ok,
        forall|i: int|
            0 <= i < methods.len() ==> unique_decls(
                (#[trigger] function_trees(methods)[i]).body,
                function_trees(methods)[i].body.len(),
            ),
        forall|i: int, j: int|
            0 <= i < j < methods.len() ==> (#[trigger] decls_ids(
                function_trees(methods)[i].body,
                function_trees(methods)[i].body.len(),
            )).disjoint(
                #[trigger] decls_ids(
                    function_trees(methods)[j].body,
                    function_trees(methods)[j].body.len(),
                ),
            ),
        fresh(s.locals, functions_ids_from(function_trees(methods), from)),
        same_on(
            table,
            s.resolve_methods(methods, from)->Ok_0.locals,
            functions_ids_from(function_trees(methods), from),
        ),
    ensures
        methods_annotated(table, s.scopes, methods, from),
    decreases methods, methods.len() - from,
{
    let trees = function_trees(methods);
    if from < methods.len() {
        let kind = if methods[from].identifier@ == "init"@ {
            FunctionType::Initializer
        } else {
            FunctionType::Method
        };
        let t = s.resolve_function(&methods[from], kind)->Ok_0;
        let end = s.resolve_methods(methods, from)->Ok_0;
        let here = decls_ids(trees[from].body, trees[from].body.len());
        let rest = functions_ids_from(trees, from + 1);
        let all = functions_ids_from(trees, from);
        assert(trees[from] == methods[from]@);
        lemma_function_is_balanced(s, &methods[from], kind);
        lemma_function_frame(s, &methods[from], kind);
        lemma_methods_frame(t, methods, from + 1);
        assert forall|x: nat| here.contains(x) implies all.contains(x) by {
            assert(from <= from < trees.len() && 0 <= from && decls_ids(
                trees[from].body,
                trees[from].body.len(),
            ).contains(x));
        }
        assert forall|x: nat| rest.contains(x) implies all.contains(x) && !here.contains(x) by {
            let j = choose|j: int|
                from + 1 <= j < trees.len() && 0 <= j && decls_ids(
                    trees[j].body,
                    trees[j].body.len(),
                ).contains(x);
            assert(from <= j < trees.len() && 0 <= j && decls_ids(
                trees[j].body,
                trees[j].body.len(),
            ).contains(x));
            assert(decls_ids(trees[from].body, trees[from].body.len()).disjoint(
                decls_ids(trees[j].body, trees[j].body.len()),
            ));
        }
        lemma_two_parts(s.locals, t.locals, end.locals, table, here, rest, all);
        lemma_function_annotated(s, &methods[from], kind, table);
        lemma_methods_annotated(t, methods, from + 1, table);
    }
}

/// The table that the resolver leaves behind records every reference by
/// its scope distance.
///
/// Let the walk over a program succeed, starting with a table that says
/// nothing of the program's expressions, and let these have ids of their
/// own. Then in the table it ends with, every reference to a variable, to
/// `this` or to `super`, wherever in the program it stands, is recorded
/// with the depth of the innermost local scope that declares the name
/// where the reference stands, and is absent if no local scope does.
pub proof fn theorem_annotations_are_distances(start: Map<u64, usize>, decls: Seq<Declaration>)
    requires
        Static::start(start).resolve_decls(decls, 0) is Ok,
        unique_decls(decl_trees(decls), decls.len()),
        fresh(start, decls_ids(decl_trees(decls), decls.len())),
    ensures
        decls_annotated(
            Static::start(start).resolve_decls(decls, 0)->Ok_0.locals,
            Seq::empty(),
            decls,
            0,
        ),
{
    let s = Static::start(start);
    let end = s.resolve_decls(decls, 0)->Ok_0;
    let trees = decl_trees(decls);
    lemma_decls_from_start(trees);
    lemma_narrower(
        s.locals,
        end.locals,
        end.locals,
        decls_ids_from(trees, 0),
        decls_ids(trees, trees.len()),
    );
    lemma_decls_apart(trees, trees.len());
    lemma_decls_annotated(s, decls, 0, end.locals);
}

/// Whether the scopes that lie from `env` outwards at run time are the
/// scopes that the resolver saw open: at least as many, and each defines
/// every name that is ready for use in the scope it stands for.
pub open spec fn mirrors(scopes: Seq<Scope>, env: int, seen: Seq<Names>) -> bool
    decreases seen.len(),
{
    if seen.len() == 0 {
        true
    } else {
        &&& 0 <= env < scopes.len()
        &&& forall|name: Seq<char>|
            seen.last().contains_key(name) && seen.last()[name]
                ==> #[trigger] scopes[env].values.contains_key(name)
        &&& seen.len() > 1 ==> scopes[env].parent is Some && mirrors(
            scopes,
            scopes[env].parent->0 as int,
            seen.drop_last(),
        )
    }
}

/// Whether every scope that declares `name` holds it ready for use.
pub open spec fn ready_where_declared(seen: Seq<Names>, name: Seq<char>) -> bool {
    forall|i: int| 0 <= i < seen.len() && (#[trigger] seen[i]).contains_key(name) ==> seen[i][name]
}

/// Where run time mirrors what the resolver saw, the scope at the distance
/// that the resolver found exists and defines the name, if the name is
/// ready for use.
pub proof fn lemma_mirrored_distance(
    scopes: Seq<Scope>,
    env: int,
    seen: Seq<Names>,
    name: Seq<char>,
)
    requires
        mirrors(scopes, env, seen),
        depth_of(seen, name) is Some,
    ensures
        ancestor(scopes, env, depth_of(seen, name)->0) is Some,
        ready_where_declared(seen, name) ==> lookup_at(
            scopes,
            env,
            depth_of(seen, name)->0,
            name,
        ) is Some,
    decreases seen.len(),
{
    if seen.last().contains_key(name) {
        assert(seen[seen.len() - 1].contains_key(name));
    } else {
        let outer = seen.drop_last();
        assert(depth_of(outer, name) is Some);
        assert(outer.len() > 0);
        lemma_mirrored_distance(scopes, scopes[env].parent->0 as int, outer, name);
        if ready_where_declared(seen, name) {
            assert forall|i: int| 0 <= i < outer.len() && (#[trigger] outer[i]).contains_key(
                name,
            ) implies outer[i][name] by {
                assert(seen[i].contains_key(name));
            }
        }
    }
}

/// An annotated read succeeds where run time mirrors what the resolver
/// saw.
///
/// Let the table record the reference `id` to `name` as it should for the
/// scopes that the resolver saw open, let the name be ready for use
/// wherever it is declared, and let the scopes from `env` outwards mirror
/// those scopes. Then, if the reference is recorded at all, the read at the
/// recorded distance finds the variable.
pub proof fn theorem_mirrored_read_succeeds(
    table: Map<u64, usize>,
    id: u64,
    scopes: Seq<Scope>,
    env: int,
    seen: Seq<Names>,
    name: Seq<char>,
)
    requires
        records(table, id, seen, name),
        ready_where_declared(seen, name),
        mirrors(scopes, env, seen),
        seen.len() <= usize::MAX,
    ensures
        table.contains_key(id) ==> lookup_at(scopes, env, table[id] as nat, name) is Some,
{
    if depth_of(seen, name) is Some {
        lemma_mirrored_distance(scopes, env, seen, name);
        lemma_depth_is_small(seen, name);
    }
}

/// An annotated assignment finds its scope where run time mirrors what the
/// resolver saw.
pub proof fn theorem_mirrored_assignment_succeeds(
    table: Map<u64, usize>,
    id: u64,
    scopes: Seq<Scope>,
    env: int,
    seen: Seq<Names>,
    name: Seq<char>,
)
    requires
        records(table, id, seen, name),
        mirrors(scopes, env, seen),
        seen.len() <= usize::MAX,
    ensures
        table.contains_key(id) ==> ancestor(scopes, env, table[id] as nat) is Some,
{
    if depth_of(seen, name) is Some {
        lemma_mirrored_distance(scopes, env, seen, name);
        lemma_depth_is_small(seen, name);
    }
}

/// A depth is less than the number of scopes.
pub proof fn lemma_depth_is_small(seen: Seq<Names>, name: Seq<char>)
    requires
        depth_of(seen, name) is Some,
    ensures
        depth_of(seen, name)->0 < seen.len(),
    decreases seen.len(),
{
    if !seen.last().contains_key(name) {
        lemma_depth_is_small(seen.drop_last(), name);
    }
}

} // verus!
