//! What holds of every program: facts about scoping, closures, classes and
//! `return` that follow from the definitions of the resolver and the
//! machine, each proved once and for all.

use vstd::prelude::*;
use crate::callable::bound;
use crate::class::{constructor_arity, find_method, property, with_field, ClassView};
use crate::environment::{
    ancestor, bind, defining_scope, lookup, lookup_at, well_linked, Scope,
};
use crate::heap::HeapView;
use crate::machine::{Control, Event, Frame, Machine};
use crate::resolver::{depth_of, FunctionType, Names, ResolveError, Static};
use crate::scanner::Token;
use crate::syntax::{ClassDecl, Declaration, Expr, ExprKind, FunctionStmt, Stmt};
use crate::types::{Callable, Object, RuntimeError};

verus! {

/// Binding a name in some scope changes no parent link.
pub proof fn lemma_ancestor_after_bind(
    scopes: Seq<Scope>,
    s: int,
    name: Seq<char>,
    value: Object,
    env: int,
    distance: nat,
)
    requires
        0 <= s < scopes.len(),
    ensures
        ancestor(bind(scopes, s, name, value), env, distance) == ancestor(scopes, env, distance),
    decreases distance,
{
    if 0 <= env < scopes.len() && distance > 0 {
        match scopes[env].parent {
            Some(p) => {
                lemma_ancestor_after_bind(scopes, s, name, value, p as int, (distance - 1) as nat);
            },
            None => {},
        }
    }
}

/// A new scope changes no chain that starts in an older scope.
pub proof fn lemma_ancestor_after_push(scopes: Seq<Scope>, scope: Scope, env: int, distance: nat)
    requires
        well_linked(scopes),
        0 <= env < scopes.len(),
    ensures
        ancestor(scopes.push(scope), env, distance) == ancestor(scopes, env, distance),
    decreases distance,
{
    if distance > 0 {
        match scopes[env].parent {
            Some(p) => {
                lemma_ancestor_after_push(scopes, scope, p as int, (distance - 1) as nat);
            },
            None => {},
        }
    }
}

/// The search by name stops at the first scope on the chain that defines
/// the name.
pub proof fn lemma_search_finds_nearest(
    scopes: Seq<Scope>,
    env: int,
    distance: nat,
    name: Seq<char>,
)
    requires
        well_linked(scopes),
        ancestor(scopes, env, distance) is Some,
        scopes[ancestor(scopes, env, distance)->0].values.contains_key(name),
        forall|k: nat|
            k < distance ==> !(#[trigger] scopes[ancestor(scopes, env, k)->0]).values.contains_key(
                name,
            ),
    ensures
        defining_scope(scopes, env, name) == ancestor(scopes, env, distance),
    decreases distance,
{
    if distance > 0 {
        assert(ancestor(scopes, env, 0) == Some(env));
        assert(!scopes[ancestor(scopes, env, 0)->0].values.contains_key(name));
        let p = scopes[env].parent->0 as int;
        assert forall|k: nat| k < distance - 1 implies !(#[trigger] scopes[ancestor(
            scopes,
            p,
            k,
        )->0]).values.contains_key(name) by {
            assert(ancestor(scopes, env, k + 1) == ancestor(scopes, p, k));
            assert(!scopes[ancestor(scopes, env, k + 1)->0].values.contains_key(name));
        }
        lemma_search_finds_nearest(scopes, p, (distance - 1) as nat, name);
    }
}

/// Reading a variable reaches the scope that declares it.
///
/// Let a variable be declared in a scope that lies `distance` links out from
/// the scope `env`, with no scope in between that defines the same name.
/// Then, whatever `distance` is, the value last assigned to the variable in
/// its declaring scope is what a read at that distance from `env` yields,
/// and what a search by name from `env` yields as well.
pub proof fn theorem_read_reaches_declaring_scope(
    scopes: Seq<Scope>,
    env: int,
    distance: nat,
    name: Seq<char>,
    value: Object,
)
    requires
        well_linked(scopes),
        ancestor(scopes, env, distance) is Some,
        scopes[ancestor(scopes, env, distance)->0].values.contains_key(name),
        forall|k: nat|
            k < distance ==> !(#[trigger] scopes[ancestor(scopes, env, k)->0]).values.contains_key(
                name,
            ),
    ensures
        ({
            let declaring = ancestor(scopes, env, distance)->0;
            let assigned = bind(scopes, declaring, name, value);
            &&& lookup_at(assigned, env, distance, name) == Some(value)
            &&& lookup(assigned, env, name) == Some(value)
            &&& lookup_at(scopes, env, distance, name) == lookup(scopes, env, name)
        }),
{
    let declaring = ancestor(scopes, env, distance)->0;
    lemma_ancestor_exists(scopes, env, distance);
    let assigned = bind(scopes, declaring, name, value);
    lemma_ancestor_after_bind(scopes, declaring, name, value, env, distance);
    assert forall|k: nat| k < distance implies !(#[trigger] assigned[ancestor(
        assigned,
        env,
        k,
    )->0]).values.contains_key(name) by {
        lemma_ancestor_after_bind(scopes, declaring, name, value, env, k);
        lemma_ancestor_prefix(scopes, env, k, distance);
        lemma_ancestor_exists(scopes, env, k);
        lemma_ancestor_strict(scopes, env, k, distance);
        assert(!scopes[ancestor(scopes, env, k)->0].values.contains_key(name));
    }
    assert(well_linked(assigned));
    lemma_search_finds_nearest(assigned, env, distance, name);
    lemma_search_finds_nearest(scopes, env, distance, name);
}

/// An ancestor is a scope of the store, and where scopes are linked
/// backwards, it is no younger than the scope it is reached from.
pub proof fn lemma_ancestor_exists(scopes: Seq<Scope>, env: int, distance: nat)
    requires
        ancestor(scopes, env, distance) is Some,
    ensures
        0 <= ancestor(scopes, env, distance)->0 < scopes.len(),
        well_linked(scopes) ==> ancestor(scopes, env, distance)->0 <= env,
    decreases distance,
{
    if distance > 0 {
        lemma_ancestor_exists(scopes, scopes[env].parent->0 as int, (distance - 1) as nat);
    }
}

/// A chain that reaches distance `far` reaches every nearer distance.
pub proof fn lemma_ancestor_prefix(scopes: Seq<Scope>, env: int, near: nat, far: nat)
    requires
        near <= far,
        ancestor(scopes, env, far) is Some,
    ensures
        ancestor(scopes, env, near) is Some,
    decreases near,
{
    if near > 0 {
        lemma_ancestor_prefix(
            scopes,
            scopes[env].parent->0 as int,
            (near - 1) as nat,
            (far - 1) as nat,
        );
    }
}

/// Farther ancestors are older scopes.
pub proof fn lemma_ancestor_strict(scopes: Seq<Scope>, env: int, near: nat, far: nat)
    requires
        well_linked(scopes),
        near < far,
        ancestor(scopes, env, far) is Some,
    ensures
        ancestor(scopes, env, near) is Some,
        ancestor(scopes, env, far)->0 < ancestor(scopes, env, near)->0,
    decreases near,
{
    lemma_ancestor_prefix(scopes, env, near, far);
    if near > 0 {
        lemma_ancestor_strict(
            scopes,
            scopes[env].parent->0 as int,
            (near - 1) as nat,
            (far - 1) as nat,
        );
    } else {
        let p = scopes[env].parent->0 as int;
        lemma_ancestor_exists(scopes, p, (far - 1) as nat);
    }
}

/// Scopes that do not declare a name add their number to its distance.
pub proof fn lemma_depth_through(outer: Seq<Names>, inner: Seq<Names>, name: Seq<char>)
    requires
        forall|j: int| 0 <= j < inner.len() ==> !inner[j].contains_key(name),
    ensures
        depth_of(outer + inner, name) == match depth_of(outer, name) {
            Some(d) => Some(d + inner.len()),
            None => None,
        },
    decreases inner.len(),
{
    if inner.len() == 0 {
        assert(outer + inner =~= outer);
    } else {
        assert((outer + inner).drop_last() =~= outer + inner.drop_last());
        assert((outer + inner).last() == inner.last());
        lemma_depth_through(outer, inner.drop_last(), name);
    }
}

/// The distance that the resolver records is the number of scopes between
/// a read and the declaration it refers to.
///
/// If the innermost scope of `outer` declares `name` and none of the scopes
/// of `inner`, opened inside it, does, then a reference to `name` resolves to
/// distance `inner.len()`, however many scopes that is.
pub proof fn theorem_distance_counts_scopes(
    s: Static,
    inner: Seq<Names>,
    id: u64,
    name: Seq<char>,
)
    requires
        s.scopes.len() > 0,
        s.scopes.last().contains_key(name),
        inner.len() <= usize::MAX,
        forall|j: int| 0 <= j < inner.len() ==> !inner[j].contains_key(name),
    ensures
        depth_of(s.scopes + inner, name) == Some(inner.len()),
        (Static { scopes: s.scopes + inner, ..s }).resolve_local(id, name).locals
            == s.locals.insert(id, inner.len() as usize),
{
    lemma_depth_through(s.scopes, inner, name);
}

/// A read that the resolver annotated delivers the variable's value.
///
/// Let the resolver have recorded distance `distance` for expression `id`,
/// and let the scope at that distance from the scope in force define `name`.
/// Then evaluating the read delivers the value that the variable has there,
/// whatever nearer scopes or the global scope hold under the same name.
pub proof fn theorem_resolved_read_delivers(m: Machine, id: u64, name: Seq<char>, value: Object)
    requires
        m.locals.contains_key(id),
        ancestor(m.heap.scopes, m.environment as int, m.locals[id] as nat) is Some,
    ensures
        ({
            let declaring = ancestor(m.heap.scopes, m.environment as int, m.locals[id] as nat)->0;
            let assigned = m.with_scopes(bind(m.heap.scopes, declaring, name, value));
            assigned.lookup_var(id, name).control == Control::Deliver(value)
        }),
{
    let distance = m.locals[id] as nat;
    let declaring = ancestor(m.heap.scopes, m.environment as int, distance)->0;
    lemma_ancestor_exists(m.heap.scopes, m.environment as int, distance);
    lemma_ancestor_after_bind(m.heap.scopes, declaring, name, value, m.environment as int, distance);
}

/// A closure sees assignments made after it was created.
///
/// Let closure `function` have been created in a scope from which scope `s`
/// lies `distance` links out. If a variable of `s` is assigned a value and
/// the closure is called afterwards, then the body of the call, reading that
/// variable one link further out than the closure's own scope, finds the
/// value assigned: the closure holds its scope, not a copy of it.
pub proof fn theorem_closure_sees_assignment(
    m: Machine,
    function: usize,
    args: Seq<Object>,
    distance: nat,
    name: Seq<char>,
    value: Object,
)
    requires
        m.wf(),
        function < m.heap.functions.len(),
        ancestor(m.heap.scopes, m.heap.functions[function as int].closure as int, distance) is Some,
    ensures
        ({
            let closure = m.heap.functions[function as int].closure as int;
            let s = ancestor(m.heap.scopes, closure, distance)->0;
            let assigned = m.with_scopes(bind(m.heap.scopes, s, name, value));
            let called = assigned.call_function(function, args);
            &&& assigned.heap.functions == m.heap.functions
            &&& lookup_at(called.heap.scopes, called.environment as int, distance + 1, name)
                == Some(value)
        }),
{
    let closure = m.heap.functions[function as int].closure as int;
    let s = ancestor(m.heap.scopes, closure, distance)->0;
    lemma_ancestor_exists(m.heap.scopes, closure, distance);
    let scopes = bind(m.heap.scopes, s, name, value);
    lemma_ancestor_after_bind(m.heap.scopes, s, name, value, closure, distance);
    let assigned = m.with_scopes(scopes);
    let called = assigned.call_function(function, args);
    let fresh = called.heap.scopes.last();
    assert(called.heap.scopes == scopes.push(fresh));
    assert(well_linked(scopes));
    lemma_ancestor_after_push(scopes, fresh, closure, distance);
    assert(called.environment == scopes.len());
    assert(called.heap.scopes[called.environment as int].parent == Some(closure as usize));
    assert(ancestor(called.heap.scopes, called.environment as int, distance + 1) == ancestor(
        called.heap.scopes,
        closure,
        distance,
    ));
}

/// A name can be declared once per local scope, and again in a scope opened
/// inside, where the new declaration hides the outer one.
pub proof fn theorem_redeclaration(s: Static, name: Seq<char>)
    requires
        s.scopes.len() > 0,
        s.declare(name) is Ok,
    ensures
        ({
            let declared = s.declare(name)->Ok_0;
            let nested = declared.define(name).begin_scope();
            &&& declared.declare(name) == Err::<Static, ResolveError>(ResolveError::AlreadyDeclared)
            &&& declared.define(name).declare(name) == Err::<Static, ResolveError>(
                ResolveError::AlreadyDeclared,
            )
            &&& depth_of(nested.scopes, name) == Some(1nat)
            &&& nested.declare(name) is Ok
            &&& depth_of(nested.declare(name)->Ok_0.scopes, name) == Some(0nat)
        }),
{
    let declared = s.declare(name)->Ok_0;
    let defined = declared.define(name);
    let nested = defined.begin_scope();
    assert(nested.scopes.drop_last() =~= defined.scopes);
    assert(defined.scopes.last().contains_key(name));
    reveal_with_fuel(depth_of, 3);
}

/// Where `return` is allowed.
///
/// Outside of every function a `return` is refused. Inside an initializer
/// it is refused if it carries a value and accepted if it carries none.
/// Everywhere else it is accepted whenever its value resolves.
pub proof fn theorem_return_rules(s: Static, stmt: &Stmt)
    requires
        stmt is Return,
    ensures
        s.function == FunctionType::NoFunction ==> s.resolve_stmt(stmt) == Err::<
            Static,
            ResolveError,
        >(ResolveError::ReturnOutsideFunction),
        s.function != FunctionType::NoFunction && stmt->Return_value is None ==> s.resolve_stmt(
            stmt,
        ) == Ok::<Static, ResolveError>(s),
        s.function == FunctionType::Initializer && stmt->Return_value is Some ==> s.resolve_stmt(
            stmt,
        ) == Err::<Static, ResolveError>(ResolveError::ReturnFromInitializer),
        (s.function == FunctionType::Function || s.function == FunctionType::Method)
            && stmt->Return_value is Some ==> s.resolve_stmt(stmt) == s.resolve_expr(
            &stmt->Return_value->0,
        ),
{
}

/// A class's own method wins over an inherited one of the same name.
pub proof fn theorem_own_method_wins(classes: Seq<ClassView>, class: int, name: Seq<char>)
    requires
        0 <= class < classes.len(),
        classes[class].methods.contains_key(name),
    ensures
        find_method(classes, class, name) == Some(classes[class].methods[name]),
{
}

/// Reading a method on an instance yields the version of the instance's
/// own class, bound to the instance, whatever its superclasses declare under
/// that name.
pub proof fn theorem_instance_gets_own_method(heap: HeapView, instance: int, name: Seq<char>)
    requires
        0 <= instance < heap.instances.len(),
        !heap.instances[instance].fields.contains_key(name),
        heap.instances[instance].class < heap.classes.len(),
        heap.classes[heap.instances[instance].class as int].methods.contains_key(name),
        heap.classes[heap.instances[instance].class as int].methods[name] < heap.functions.len(),
    ensures
        ({
            let own = heap.classes[heap.instances[instance].class as int].methods[name];
            let (after, read) = property(heap, instance, name);
            &&& read == Ok::<Object, RuntimeError>(
                Object::Callable(Callable::Function(heap.functions.len() as usize)),
            )
            &&& after == bound(heap, own as int, instance as usize)
            &&& after.functions.last().decl == heap.functions[own as int].decl
        }),
{
}

/// What a name denotes on a class does not depend on classes declared
/// later, its subclasses among them.
pub proof fn theorem_method_ignores_later_classes(
    classes: Seq<ClassView>,
    later: Seq<ClassView>,
    class: int,
    name: Seq<char>,
)
    requires
        0 <= class < classes.len(),
    ensures
        find_method(classes + later, class, name) == find_method(classes, class, name),
    decreases class,
{
    assert((classes + later)[class] == classes[class]);
    if !classes[class].methods.contains_key(name) {
        match classes[class].superclass {
            Some(s) => {
                if s < class {
                    theorem_method_ignores_later_classes(classes, later, s as int, name);
                }
            },
            None => {},
        }
    }
}

/// `super.method` does not depend on the class of the instance it is
/// evaluated for: with the instances' classes replaced by any others, the
/// same closure is bound and the same happens next.
pub proof fn theorem_super_ignores_dynamic_class(
    m: Machine,
    other: Machine,
    id: u64,
    method: Seq<char>,
)
    requires
        other == m.with_heap(HeapView { instances: other.heap.instances, ..m.heap }),
    ensures
        ({
            let a = m.lookup_super(id, method);
            let b = other.lookup_super(id, method);
            &&& a.control == b.control
            &&& a.heap.functions == b.heap.functions
            &&& a.heap.scopes == b.heap.scopes
        }),
{
}

/// Once a field is assigned, reading the property yields the value
/// assigned, whether or not the class has a method of that name.
pub proof fn theorem_field_hides_method(
    heap: HeapView,
    instance: int,
    name: Seq<char>,
    value: Object,
)
    requires
        0 <= instance < heap.instances.len(),
    ensures
        ({
            let assigned = with_field(heap, instance, name, value);
            property(assigned, instance, name) == (assigned, Ok::<Object, RuntimeError>(value))
        }),
{
}

/// A class that neither has nor inherits an initializer is constructed with
/// no argument, and a call that passes any fails on its arity.
pub proof fn theorem_default_constructor(m: Machine, class: usize, count: nat)
    requires
        class < m.heap.classes.len(),
        find_method(m.heap.classes, class as int, "init"@) is None,
        m.operands.len() >= count + 1,
        m.operands[m.operands.len() - count - 1] == Object::Class(class),
    ensures
        constructor_arity(m.heap, class as int) == 0,
        count > 0 ==> m.invoke(count).control == Control::Faulted(RuntimeError::ArityMismatch),
        count == 0 ==> m.invoke(count).control == Control::Deliver(
            Object::ClassInstance(m.heap.instances.len() as usize),
        ),
{
}

impl<'a> Machine<'a> {
    /// The state after `n` steps that the host has nothing to answer to.
    pub open spec fn steps(self, n: nat) -> Machine<'a>
        decreases n,
    {
        if n == 0 {
            self
        } else {
            self.step(Event::Resume).steps((n - 1) as nat)
        }
    }
}

/// `return` leaves everything between itself and the call it returns from.
///
/// Let the value of a `return` be on its way out, and let frame `k` be the
/// innermost frame of a call. Then one step per frame above `k` takes the
/// machine to the state in which the call has delivered the value as its
/// result in the caller's scope. On the way the stores do not change and the
/// machine does nothing but unwind: no statement that a dropped frame stood
/// for is run, at whatever depth of blocks and loops the `return` was.
pub proof fn theorem_return_reaches_call(m: Machine, value: Object, k: int)
    requires
        m.control == Control::Unwind(value),
        0 <= k < m.frames.len(),
        m.frames[k] is Call,
        forall|j: int| k < j < m.frames.len() ==> !(m.frames[j] is Call) && !(m.frames[j] is Program),
    ensures
        ({
            let n = (m.frames.len() - k) as nat;
            let r = m.steps(n);
            &&& r.control == Control::Deliver(value)
            &&& r.frames == m.frames.take(k)
            &&& r.environment == m.frames[k]->Call_caller
            &&& r.heap == m.heap
            &&& forall|i: nat| i < n ==> (#[trigger] m.steps(i)).control == Control::Unwind(value)
        }),
    decreases m.frames.len() - k,
{
    let n = (m.frames.len() - k) as nat;
    let next = m.step(Event::Resume);
    assert(next == m.unwind(value));
    if k == m.frames.len() - 1 {
        assert(m.steps(1) == next.steps(0));
        assert(next.frames =~= m.frames.take(k));
        assert forall|i: nat| i < n implies (#[trigger] m.steps(i)).control == Control::Unwind(
            value,
        ) by {
            assert(i == 0);
        }
    } else {
        assert(next.frames == m.frames.drop_last());
        assert(next.control == Control::Unwind(value));
        theorem_return_reaches_call(next, value, k);
        assert(m.steps(n) == next.steps((n - 1) as nat));
        assert(next.frames.take(k) =~= m.frames.take(k));
        assert forall|i: nat| i < n implies (#[trigger] m.steps(i)).control == Control::Unwind(
            value,
        ) by {
            if i > 0 {
                assert(m.steps(i) == next.steps((i - 1) as nat));
            }
        }
    }
}

/// Whether the pass is, in state `t`, where it was in state `s`: in the
/// same function and class, with the same scopes open, the enclosing ones
/// untouched and the innermost one holding at least the names it held.
pub open spec fn balanced(s: Static, t: Static) -> bool {
    &&& t.function == s.function
    &&& t.class == s.class
    &&& t.scopes.len() == s.scopes.len()
    &&& forall|i: int| 0 <= i < s.scopes.len() - 1 ==> t.scopes[i] == s.scopes[i]
    &&& s.scopes.len() > 0 ==> s.scopes.last().dom().subset_of(t.scopes.last().dom())
}

/// Resolving an expression declares nothing.
pub proof fn theorem_expression_declares_nothing(s: Static, expr: &Expr)
    requires
        s.resolve_expr(expr) is Ok,
    ensures
        ({
            let t = s.resolve_expr(expr)->Ok_0;
            &&& t.scopes == s.scopes
            &&& t.function == s.function
            &&& t.class == s.class
        }),
    decreases expr,
{
    match &expr.kind {
        ExprKind::Assign { expr: value, .. } => {
            theorem_expression_declares_nothing(s, value);
        },
        ExprKind::Binary { left, right, .. } => {
            theorem_expression_declares_nothing(s, left);
            theorem_expression_declares_nothing(s.resolve_expr(left)->Ok_0, right);
        },
        ExprKind::Grouping { expr: inner } => {
            theorem_expression_declares_nothing(s, inner);
        },
        ExprKind::Literal { .. } => {},
        ExprKind::Logical { left, right, .. } => {
            theorem_expression_declares_nothing(s, left);
            theorem_expression_declares_nothing(s.resolve_expr(left)->Ok_0, right);
        },
        ExprKind::Unary { right, .. } => {
            theorem_expression_declares_nothing(s, right);
        },
        ExprKind::Call { callee, args, .. } => {
            theorem_expression_declares_nothing(s, callee);
            lemma_expressions_declare_nothing(s.resolve_expr(callee)->Ok_0, args@, 0);
        },
        ExprKind::Var { .. } => {},
        ExprKind::Get { object, .. } => {
            theorem_expression_declares_nothing(s, object);
        },
        ExprKind::Put { object, value, .. } => {
            theorem_expression_declares_nothing(s, value);
            theorem_expression_declares_nothing(s.resolve_expr(value)->Ok_0, object);
        },
        ExprKind::This { .. } => {},
        ExprKind::Super { .. } => {},
    }
}

/// Resolving a list of expressions declares nothing.
pub proof fn lemma_expressions_declare_nothing(s: Static, exprs: Seq<Expr>, from: int)
    requires
        s.resolve_exprs(exprs, from) is Ok,
    ensures
        ({
            let t = s.resolve_exprs(exprs, from)->Ok_0;
            &&& t.scopes == s.scopes
            &&& t.function == s.function
            &&& t.class == s.class
        }),
    decreases exprs, exprs.len() - from,
{
    if 0 <= from < exprs.len() {
        theorem_expression_declares_nothing(s, &exprs[from]);
        lemma_expressions_declare_nothing(s.resolve_expr(&exprs[from])->Ok_0, exprs, from + 1);
    }
}

/// Declaring parameters keeps the pass balanced.
pub proof fn lemma_parameters_balanced(s: Static, params: Seq<Token>, n: nat)
    requires
        s.declare_parameters(params, n) is Ok,
    ensures
        balanced(s, s.declare_parameters(params, n)->Ok_0),
    decreases n,
{
    if n > 0 {
        lemma_parameters_balanced(s, params, (n - 1) as nat);
    }
}

/// Scopes are opened and closed in pairs.
///
/// After a statement was resolved the pass is where it was before: in the
/// same function and class, with the same number of scopes open. Nothing
/// that the statement declares inside a block, a function or a class has
/// touched a scope that was open before; the statement itself can only have
/// added names to the innermost scope.
pub proof fn theorem_statement_is_balanced(s: Static, stmt: &Stmt)
    requires
        s.resolve_stmt(stmt) is Ok,
    ensures
        balanced(s, s.resolve_stmt(stmt)->Ok_0),
    decreases stmt,
{
    match stmt {
        Stmt::Expr(expr) => {
            theorem_expression_declares_nothing(s, expr);
        },
        Stmt::Print(expr) => {
            theorem_expression_declares_nothing(s, expr);
        },
        Stmt::FunctionDecl(decl) => {
            let named = s.declare(decl.identifier@)->Ok_0.define(decl.identifier@);
            lemma_function_is_balanced(named, decl, FunctionType::Function);
        },
        Stmt::If { condition, then_branch, else_branch } => {
            theorem_expression_declares_nothing(s, condition);
            let a = s.resolve_expr(condition)->Ok_0;
            theorem_statement_is_balanced(a, then_branch);
            let b = a.resolve_stmt(then_branch)->Ok_0;
            match else_branch {
                Some(other) => {
                    theorem_statement_is_balanced(b, other);
                },
                None => {},
            }
        },
        Stmt::Return { value } => {
            match value {
                Some(expr) => {
                    theorem_expression_declares_nothing(s, expr);
                },
                None => {},
            }
        },
        Stmt::While { condition, body } => {
            theorem_expression_declares_nothing(s, condition);
            theorem_statement_is_balanced(s.resolve_expr(condition)->Ok_0, body);
        },
        Stmt::Block(decls) => {
            let inside = s.begin_scope();
            lemma_declarations_are_balanced(inside, decls@, 0);
            let done = inside.resolve_decls(decls@, 0)->Ok_0;
            assert(done.end_scope().scopes =~= s.scopes);
        },
        Stmt::ClassDecl(decl) => {
            let begun = s.begin_class(decl)->Ok_0;
            lemma_methods_are_balanced(begun, decl.methods@, 0);
            let done = begun.resolve_methods(decl.methods@, 0)->Ok_0;
            let closed = done.end_class(decl, s.class);
            assert(closed.scopes.len() == s.scopes.len());
            assert forall|i: int| 0 <= i < s.scopes.len() - 1 implies closed.scopes[i]
                == s.scopes[i] by {}
        },
    }
}

/// Resolving a declaration keeps the pass balanced.
pub proof fn lemma_declaration_is_balanced(s: Static, decl: &Declaration)
    requires
        s.resolve_decl(decl) is Ok,
    ensures
        balanced(s, s.resolve_decl(decl)->Ok_0),
    decreases decl,
{
    match decl {
        Declaration::Var { identifier, expression } => {
            let declared = s.declare(identifier@)->Ok_0;
            theorem_expression_declares_nothing(declared, expression);
        },
        Declaration::Statement(stmt) => {
            theorem_statement_is_balanced(s, stmt);
        },
    }
}

/// Resolving a list of declarations keeps the pass balanced.
pub proof fn lemma_declarations_are_balanced(s: Static, decls: Seq<Declaration>, from: int)
    requires
        s.resolve_decls(decls, from) is Ok,
    ensures
        balanced(s, s.resolve_decls(decls, from)->Ok_0),
    decreases decls, decls.len() - from,
{
    if 0 <= from < decls.len() {
        lemma_declaration_is_balanced(s, &decls[from]);
        lemma_declarations_are_balanced(s.resolve_decl(&decls[from])->Ok_0, decls, from + 1);
    }
}

/// Resolving a function keeps the pass balanced and declares nothing
/// outside the function.
pub proof fn lemma_function_is_balanced(s: Static, decl: &FunctionStmt, kind: FunctionType)
    requires
        s.resolve_function(decl, kind) is Ok,
    ensures
        ({
            let t = s.resolve_function(decl, kind)->Ok_0;
            &&& t.scopes == s.scopes
            &&& t.function == s.function
            &&& t.class == s.class
        }),
    decreases decl,
{
    let inside = Static { function: kind, ..s }.begin_scope();
    lemma_parameters_balanced(inside, decl.parameters@, decl.parameters@.len());
    let declared = inside.declare_parameters(decl.parameters@, decl.parameters@.len())->Ok_0;
    lemma_declarations_are_balanced(declared, decl.body@, 0);
    let done = declared.resolve_decls(decl.body@, 0)->Ok_0;
    assert(done.end_scope().scopes =~= s.scopes);
}

/// Resolving the methods of a class declares nothing outside the methods.
pub proof fn lemma_methods_are_balanced(s: Static, methods: Seq<FunctionStmt>, from: int)
    requires
        s.resolve_methods(methods, from) is Ok,
    ensures
        ({
            let t = s.resolve_methods(methods, from)->Ok_0;
            &&& t.scopes == s.scopes
            &&& t.function == s.function
            &&& t.class == s.class
        }),
    decreases methods, methods.len() - from,
{
    if 0 <= from < methods.len() {
        let kind = if methods[from].identifier@ == "init"@ {
            FunctionType::Initializer
        } else {
            FunctionType::Method
        };
        lemma_function_is_balanced(s, &methods[from], kind);
        lemma_methods_are_balanced(
            s.resolve_function(&methods[from], kind)->Ok_0,
            methods,
            from + 1,
        );
    }
}

/// A whole program leaves no scope open.
pub proof fn theorem_program_is_balanced(locals: Map<u64, usize>, decls: Seq<Declaration>)
    requires
        Static::start(locals).resolve_decls(decls, 0) is Ok,
    ensures
        Static::start(locals).resolve_decls(decls, 0)->Ok_0.scopes.len() == 0,
{
    lemma_declarations_are_balanced(Static::start(locals), decls, 0);
}

/// Whether the stores `after` hold everything that the stores `before`
/// hold: every text, closure and class as it was, every scope with the
/// parent it had and the names it defined, every instance with the class it
/// had.
pub open spec fn extends(before: HeapView, after: HeapView) -> bool {
    &&& before.strings.len() <= after.strings.len()
    &&& forall|i: int| 0 <= i < before.strings.len() ==> after.strings[i] == before.strings[i]
    &&& before.functions.len() <= after.functions.len()
    &&& forall|i: int|
        0 <= i < before.functions.len() ==> after.functions[i] == before.functions[i]
    &&& before.classes.len() <= after.classes.len()
    &&& forall|i: int| 0 <= i < before.classes.len() ==> after.classes[i] == before.classes[i]
    &&& before.scopes.len() <= after.scopes.len()
    &&& forall|i: int|
        0 <= i < before.scopes.len() ==> after.scopes[i].parent == before.scopes[i].parent
    &&& forall|i: int, name: Seq<char>|
        0 <= i < before.scopes.len() && before.scopes[i].values.contains_key(name)
            ==> #[trigger] after.scopes[i].values.contains_key(name)
    &&& before.instances.len() <= after.instances.len()
    &&& forall|i: int|
        0 <= i < before.instances.len() ==> after.instances[i].class == before.instances[i].class
}

/// Nothing that a program has created goes away or changes its identity.
///
/// Whatever step the machine takes, every text, closure and class that the
/// stores hold stays as it is, every scope keeps its parent and the names
/// it defines, and every instance its class. Only the values of variables
/// and the fields of instances change.
pub proof fn theorem_records_are_permanent(m: Machine, event: Event)
    requires
        m.wf(),
    ensures
        extends(m.heap, m.step(event).heap),
{
    match m.control {
        Control::Evaluate(expr) => {
            lemma_evaluate_extends(m, expr);
        },
        Control::Execute(stmt) => {
            lemma_execute_extends(m, stmt);
        },
        Control::Declare(decl) => {
            match decl {
                Declaration::Var { .. } => {},
                Declaration::Statement(stmt) => {
                    lemma_execute_extends(m, stmt);
                },
            }
        },
        Control::Deliver(value) => {
            if m.frames.len() > 0 {
                let popped = Machine { frames: m.frames.drop_last(), ..m };
                lemma_apply_extends(popped, m.frames.last(), value);
            }
        },
        _ => {},
    }
}

proof fn lemma_evaluate_extends(m: Machine, expr: &Expr)
    requires
        m.wf(),
    ensures
        extends(m.heap, m.evaluate(expr).heap),
{
}

proof fn lemma_declare_class_extends(m: Machine, decl: &ClassDecl, superclass: Option<usize>)
    requires
        m.heap.wf(),
        m.environment < m.heap.scopes.len(),
    ensures
        extends(m.heap, m.declare_class(decl, superclass).heap),
{
}

proof fn lemma_execute_extends(m: Machine, stmt: &Stmt)
    requires
        m.wf(),
    ensures
        extends(m.heap, m.execute(stmt).heap),
{
    match stmt {
        Stmt::ClassDecl(decl) => {
            lemma_declare_class_extends(m, decl, None);
        },
        _ => {},
    }
}

proof fn lemma_call_extends(m: Machine, function: usize, args: Seq<Object>)
    requires
        function < m.heap.functions.len(),
    ensures
        extends(m.heap, m.call_function(function, args).heap),
{
}

proof fn lemma_invoke_extends(m: Machine, count: nat)
    requires
        m.heap.wf(),
    ensures
        extends(m.heap, m.invoke(count).heap),
{
    if m.operands.len() >= count + 1 {
        let base = m.operands.len() - count - 1;
        let callee = m.operands[base];
        let args = m.operands.subrange(base + 1, m.operands.len() as int);
        let n = Machine { operands: m.operands.take(base), ..m };
        match callee {
            Object::Callable(Callable::Function(f)) => {
                if f < n.heap.functions.len() {
                    lemma_call_extends(n, f, args);
                }
            },
            Object::Class(c) => {
                if c < n.heap.classes.len() && constructor_arity(n.heap, c as int) == count {
                    let instance = n.heap.instances.len() as usize;
                    let made = crate::class::with_instance(n.heap, c);
                    match find_method(made.classes, c as int, "init"@) {
                        Some(f) => {
                            if f < made.functions.len() {
                                let ready = Machine {
                                    heap: bound(made, f as int, instance),
                                    frames: n.frames.push(Frame::Construct { instance }),
                                    ..n
                                };
                                lemma_call_extends(ready, made.functions.len() as usize, args);
                            }
                        },
                        None => {},
                    }
                }
            },
            _ => {},
        }
    }
}

/// A scope found by name is a scope of the store.
pub proof fn lemma_defining_scope_exists(scopes: Seq<Scope>, env: int, name: Seq<char>)
    requires
        defining_scope(scopes, env, name) is Some,
    ensures
        0 <= defining_scope(scopes, env, name)->0 < scopes.len(),
    decreases env,
{
    if 0 <= env < scopes.len() && !scopes[env].values.contains_key(name) {
        match scopes[env].parent {
            Some(p) => {
                if p < env {
                    lemma_defining_scope_exists(scopes, p as int, name);
                }
            },
            None => {},
        }
    }
}

/// The scope found by name defines the name.
pub proof fn lemma_defining_scope_defines(scopes: Seq<Scope>, env: int, name: Seq<char>)
    requires
        defining_scope(scopes, env, name) is Some,
    ensures
        scopes[defining_scope(scopes, env, name)->0].values.contains_key(name),
    decreases env,
{
    if 0 <= env < scopes.len() && !scopes[env].values.contains_key(name) {
        match scopes[env].parent {
            Some(p) => {
                if p < env {
                    lemma_defining_scope_defines(scopes, p as int, name);
                }
            },
            None => {},
        }
    }
}

proof fn lemma_assign_extends(m: Machine, id: u64, name: Seq<char>, value: Object)
    ensures
        extends(m.heap, m.assign(id, name, value).heap),
{
    let scopes = m.heap.scopes;
    if m.locals.contains_key(id) {
        let distance = m.locals[id] as nat;
        if ancestor(scopes, m.environment as int, distance) is Some {
            lemma_ancestor_exists(scopes, m.environment as int, distance);
        }
    } else {
        if defining_scope(scopes, m.globals as int, name) is Some {
            lemma_defining_scope_exists(scopes, m.globals as int, name);
        }
    }
}

proof fn lemma_apply_extends(m: Machine, frame: Frame, value: Object)
    requires
        m.heap.wf(),
        m.environment < m.heap.scopes.len(),
    ensures
        extends(m.heap, m.apply(frame, value).heap),
{
    match frame {
        Frame::Callee { args } => {
            let n = Machine { operands: m.operands.push(value), ..m };
            lemma_invoke_extends(n, 0);
        },
        Frame::Argument { args, index } => {
            let n = Machine { operands: m.operands.push(value), ..m };
            lemma_invoke_extends(n, args@.len());
        },
        Frame::Superclass { decl } => {
            match value {
                Object::Class(c) => {
                    lemma_declare_class_extends(m, decl, Some(c));
                },
                _ => {},
            }
        },
        Frame::Assign { id, name } => {
            lemma_assign_extends(m, id, name@, value);
        },
        _ => {},
    }
}

} // verus!
