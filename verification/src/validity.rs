//! Handles never dangle.
//!
//! A value refers to a text, a closure, a class or an instance by its index
//! in the stores. This module proves that a running program never holds an
//! index that the stores do not have: the property holds of a new
//! interpreter and every step preserves it.

use vstd::prelude::*;
use crate::callable::{bound, receiver_scope, Function};
use crate::class::{constructor_arity, find_method, property, with_field, with_instance, ClassView};
use crate::environment::{ancestor, bind, defining_scope, lookup, lookup_at, Scope};
use crate::eval::{binary, Outcome};
use crate::heap::HeapView;
use crate::machine::{
    description, method_closures, method_table, parameters, rendered, Control, Event, Frame, Machine,
};
use crate::scanner::{Token, TokenType};
use crate::syntax::{ClassDecl, Declaration, Expr, ExprKind, FunctionStmt, Literal, Stmt};
use crate::theorems::{extends, lemma_ancestor_exists, lemma_defining_scope_exists};
use crate::eval::equality;
use crate::types::{Callable, Object, RuntimeError};

verus! {

/// Whether closure `f` can be called: it exists, and if it is an
/// initializer, its scope knows the instance it initializes as `this`.
pub open spec fn callable(heap: HeapView, f: usize) -> bool {
    &&& f < heap.functions.len()
    &&& heap.functions[f as int].is_initializer ==> {
        let closure = heap.functions[f as int].closure;
        closure < heap.scopes.len() && heap.scopes[closure as int].values.contains_key("this"@)
    }
}

/// Whether the stores hold what `value` refers to.
pub open spec fn valid_object(heap: HeapView, value: Object) -> bool {
    match value {
        Object::String(id) => id < heap.strings.len(),
        Object::Callable(Callable::Function(f)) => callable(heap, f),
        Object::Class(c) => c < heap.classes.len(),
        Object::ClassInstance(i) => i < heap.instances.len(),
        _ => true,
    }
}

/// Whether the stores hold what the values of a table refer to.
pub open spec fn valid_values(heap: HeapView, values: Map<Seq<char>, Object>) -> bool {
    forall|k: Seq<char>| values.contains_key(k) ==> valid_object(heap, #[trigger] values[k])
}

/// Whether the stores hold what a frame refers to.
pub open spec fn valid_frame(heap: HeapView, frame: Frame) -> bool {
    match frame {
        Frame::Right { left, .. } => valid_object(heap, left),
        Frame::PutValue { instance, .. } => instance < heap.instances.len(),
        Frame::Construct { instance } => instance < heap.instances.len(),
        Frame::Call { function, .. } => callable(heap, function),
        _ => true,
    }
}

/// Whether the stores hold what the value in flight refers to.
pub open spec fn valid_control(heap: HeapView, control: Control) -> bool {
    match control {
        Control::Deliver(value) => valid_object(heap, value),
        Control::Unwind(value) => valid_object(heap, value),
        Control::Finished(value) => valid_object(heap, value),
        _ => true,
    }
}

/// Whether the records of the stores refer to records of the stores only.
pub open spec fn valid_heap(heap: HeapView) -> bool {
    &&& forall|i: int|
        0 <= i < heap.scopes.len() ==> valid_values(heap, (#[trigger] heap.scopes[i]).values)
    &&& forall|i: int|
        0 <= i < heap.instances.len() ==> valid_values(heap, (#[trigger] heap.instances[i]).fields)
            && heap.instances[i].class < heap.classes.len()
    &&& forall|c: int, k: Seq<char>|
        0 <= c < heap.classes.len() && (#[trigger] heap.classes[c].methods.contains_key(k))
            ==> heap.classes[c].methods[k] < heap.functions.len()
}

/// Whether nothing in the state refers to a record that the stores do not
/// hold.
pub open spec fn valid(m: Machine) -> bool {
    &&& valid_heap(m.heap)
    &&& forall|i: int| 0 <= i < m.frames.len() ==> valid_frame(m.heap, #[trigger] m.frames[i])
    &&& forall|i: int| 0 <= i < m.operands.len() ==> valid_object(m.heap, #[trigger] m.operands[i])
    &&& valid_control(m.heap, m.control)
}

/// A new interpreter holds no dangling handle.
pub proof fn theorem_initial_state_is_valid()
    ensures
        valid(Machine::initial()),
{
}

/// What holds of the stores holds of larger stores.
pub proof fn lemma_valid_in_larger_stores(before: HeapView, after: HeapView)
    requires
        extends(before, after),
    ensures
        forall|o: Object| valid_object(before, o) ==> #[trigger] valid_object(after, o),
        forall|values: Map<Seq<char>, Object>|
            valid_values(before, values) ==> #[trigger] valid_values(after, values),
        forall|f: Frame| valid_frame(before, f) ==> #[trigger] valid_frame(after, f),
{
    assert forall|values: Map<Seq<char>, Object>|
        valid_values(before, values) implies #[trigger] valid_values(after, values) by {
        assert forall|k: Seq<char>| values.contains_key(k) implies valid_object(
            after,
            #[trigger] values[k],
        ) by {
            assert(valid_object(before, values[k]));
        }
    }
}

/// A new text leaves the stores valid.
pub proof fn lemma_text_keeps_valid(heap: HeapView, text: Seq<char>)
    requires
        valid_heap(heap),
    ensures
        valid_heap(heap.with_text(text)),
        extends(heap, heap.with_text(text)),
        heap.strings.len() <= usize::MAX ==> valid_object(
            heap.with_text(text),
            Object::String(heap.strings.len() as usize),
        ),
{
    let after = heap.with_text(text);
    assert(extends(heap, after));
    lemma_valid_in_larger_stores(heap, after);
    assert forall|i: int| 0 <= i < after.scopes.len() implies valid_values(
        after,
        (#[trigger] after.scopes[i]).values,
    ) by {
        assert(valid_values(heap, heap.scopes[i].values));
    }
    assert forall|i: int| 0 <= i < after.instances.len() implies valid_values(
        after,
        (#[trigger] after.instances[i]).fields,
    ) && after.instances[i].class < after.classes.len() by {
        assert(valid_values(heap, heap.instances[i].fields));
    }
}

/// Binding a valid value in a scope leaves the stores valid.
pub proof fn lemma_bind_keeps_valid(heap: HeapView, s: int, name: Seq<char>, value: Object)
    requires
        valid_heap(heap),
        0 <= s < heap.scopes.len(),
        valid_object(heap, value),
    ensures
        valid_heap(heap.with_scopes(bind(heap.scopes, s, name, value))),
        extends(heap, heap.with_scopes(bind(heap.scopes, s, name, value))),
{
    let after = heap.with_scopes(bind(heap.scopes, s, name, value));
    assert(extends(heap, after));
    lemma_valid_in_larger_stores(heap, after);
    assert forall|i: int| 0 <= i < after.scopes.len() implies valid_values(
        after,
        (#[trigger] after.scopes[i]).values,
    ) by {
        assert(valid_values(heap, heap.scopes[i].values));
        if i == s {
            assert forall|k: Seq<char>| after.scopes[i].values.contains_key(k) implies valid_object(
                after,
                #[trigger] after.scopes[i].values[k],
            ) by {
                if k != name {
                    assert(heap.scopes[i].values.contains_key(k));
                    assert(valid_object(heap, heap.scopes[i].values[k]));
                }
            }
        }
    }
    assert forall|i: int| 0 <= i < after.instances.len() implies valid_values(
        after,
        (#[trigger] after.instances[i]).fields,
    ) && after.instances[i].class < after.classes.len() by {
        assert(valid_values(heap, heap.instances[i].fields));
    }
}

/// A new scope whose variables are valid leaves the stores valid.
pub proof fn lemma_scope_keeps_valid(heap: HeapView, scope: Scope)
    requires
        valid_heap(heap),
        valid_values(heap, scope.values),
    ensures
        valid_heap(heap.with_scopes(heap.scopes.push(scope))),
        extends(heap, heap.with_scopes(heap.scopes.push(scope))),
{
    let after = heap.with_scopes(heap.scopes.push(scope));
    assert(extends(heap, after));
    lemma_valid_in_larger_stores(heap, after);
    assert forall|i: int| 0 <= i < after.scopes.len() implies valid_values(
        after,
        (#[trigger] after.scopes[i]).values,
    ) by {
        if i < heap.scopes.len() {
            assert(valid_values(heap, heap.scopes[i].values));
        }
    }
    assert forall|i: int| 0 <= i < after.instances.len() implies valid_values(
        after,
        (#[trigger] after.instances[i]).fields,
    ) && after.instances[i].class < after.classes.len() by {
        assert(valid_values(heap, heap.instances[i].fields));
    }
}

/// New closures leave the stores valid.
pub proof fn lemma_functions_keep_valid<'a>(heap: HeapView<'a>, more: Seq<Function<'a>>)
    requires
        valid_heap(heap),
    ensures
        valid_heap(HeapView { functions: heap.functions + more, ..heap }),
        extends(heap, HeapView { functions: heap.functions + more, ..heap }),
{
    let after = HeapView { functions: heap.functions + more, ..heap };
    assert(extends(heap, after));
    lemma_valid_in_larger_stores(heap, after);
    assert forall|i: int| 0 <= i < after.scopes.len() implies valid_values(
        after,
        (#[trigger] after.scopes[i]).values,
    ) by {
        assert(valid_values(heap, heap.scopes[i].values));
    }
    assert forall|i: int| 0 <= i < after.instances.len() implies valid_values(
        after,
        (#[trigger] after.instances[i]).fields,
    ) && after.instances[i].class < after.classes.len() by {
        assert(valid_values(heap, heap.instances[i].fields));
    }
}

/// A new class whose methods exist leaves the stores valid.
pub proof fn lemma_class_keeps_valid(heap: HeapView, class: ClassView)
    requires
        valid_heap(heap),
        forall|k: Seq<char>| #[trigger]
            class.methods.contains_key(k) ==> class.methods[k] < heap.functions.len(),
    ensures
        valid_heap(HeapView { classes: heap.classes.push(class), ..heap }),
        extends(heap, HeapView { classes: heap.classes.push(class), ..heap }),
{
    let after = HeapView { classes: heap.classes.push(class), ..heap };
    assert(extends(heap, after));
    lemma_valid_in_larger_stores(heap, after);
    assert forall|i: int| 0 <= i < after.scopes.len() implies valid_values(
        after,
        (#[trigger] after.scopes[i]).values,
    ) by {
        assert(valid_values(heap, heap.scopes[i].values));
    }
    assert forall|i: int| 0 <= i < after.instances.len() implies valid_values(
        after,
        (#[trigger] after.instances[i]).fields,
    ) && after.instances[i].class < after.classes.len() by {
        assert(valid_values(heap, heap.instances[i].fields));
    }
    assert forall|c: int, k: Seq<char>|
        0 <= c < after.classes.len() && (#[trigger] after.classes[c].methods.contains_key(
            k,
        )) implies after.classes[c].methods[k] < after.functions.len() by {
        if c < heap.classes.len() {
            assert(heap.classes[c].methods.contains_key(k));
        }
    }
}

/// A new instance of an existing class leaves the stores valid.
pub proof fn lemma_instance_keeps_valid(heap: HeapView, class: usize)
    requires
        valid_heap(heap),
        class < heap.classes.len(),
    ensures
        valid_heap(with_instance(heap, class)),
        extends(heap, with_instance(heap, class)),
{
    let after = with_instance(heap, class);
    assert(extends(heap, after));
    lemma_valid_in_larger_stores(heap, after);
    assert forall|i: int| 0 <= i < after.scopes.len() implies valid_values(
        after,
        (#[trigger] after.scopes[i]).values,
    ) by {
        assert(valid_values(heap, heap.scopes[i].values));
    }
    assert forall|i: int| 0 <= i < after.instances.len() implies valid_values(
        after,
        (#[trigger] after.instances[i]).fields,
    ) && after.instances[i].class < after.classes.len() by {
        if i < heap.instances.len() {
            assert(valid_values(heap, heap.instances[i].fields));
        }
    }
}

/// Setting a field to a valid value leaves the stores valid.
pub proof fn lemma_field_keeps_valid(heap: HeapView, instance: int, name: Seq<char>, value: Object)
    requires
        valid_heap(heap),
        0 <= instance < heap.instances.len(),
        valid_object(heap, value),
    ensures
        valid_heap(with_field(heap, instance, name, value)),
        extends(heap, with_field(heap, instance, name, value)),
{
    let after = with_field(heap, instance, name, value);
    assert(extends(heap, after));
    lemma_valid_in_larger_stores(heap, after);
    assert forall|i: int| 0 <= i < after.scopes.len() implies valid_values(
        after,
        (#[trigger] after.scopes[i]).values,
    ) by {
        assert(valid_values(heap, heap.scopes[i].values));
    }
    assert forall|i: int| 0 <= i < after.instances.len() implies valid_values(
        after,
        (#[trigger] after.instances[i]).fields,
    ) && after.instances[i].class < after.classes.len() by {
        assert(valid_values(heap, heap.instances[i].fields));
        if i == instance {
            assert forall|k: Seq<char>| after.instances[i].fields.contains_key(k) implies valid_object(
                after,
                #[trigger] after.instances[i].fields[k],
            ) by {
                if k != name {
                    assert(heap.instances[i].fields.contains_key(k));
                    assert(valid_object(heap, heap.instances[i].fields[k]));
                }
            }
        }
    }
}

/// Binding a closure to an existing instance leaves the stores valid.
pub proof fn lemma_bound_keeps_valid(heap: HeapView, function: int, instance: usize)
    requires
        valid_heap(heap),
        0 <= function < heap.functions.len(),
        instance < heap.instances.len(),
        heap.functions.len() < usize::MAX,
        heap.scopes.len() < usize::MAX,
    ensures
        valid_heap(bound(heap, function, instance)),
        extends(heap, bound(heap, function, instance)),
        valid_object(
            bound(heap, function, instance),
            Object::Callable(Callable::Function(heap.functions.len() as usize)),
        ),
{
    let f = heap.functions[function];
    let scope = receiver_scope(f.closure, instance);
    assert(valid_values(heap, scope.values)) by {
        assert forall|k: Seq<char>| scope.values.contains_key(k) implies valid_object(
            heap,
            #[trigger] scope.values[k],
        ) by {}
    }
    lemma_scope_keeps_valid(heap, scope);
    let middle = heap.with_scopes(heap.scopes.push(scope));
    let more = seq![
        Function { decl: f.decl, closure: heap.scopes.len() as usize, is_initializer: f.is_initializer },
    ];
    lemma_functions_keep_valid(middle, more);
    let after = HeapView { functions: middle.functions + more, ..middle };
    assert(after.functions =~= bound(heap, function, instance).functions);
    assert(after == bound(heap, function, instance));
}

/// The values that parameters are bound to are the arguments.
pub proof fn lemma_parameters_are_valid(
    heap: HeapView,
    params: Seq<Token>,
    args: Seq<Object>,
    n: nat,
)
    requires
        n <= args.len(),
        forall|i: int| 0 <= i < args.len() ==> valid_object(heap, #[trigger] args[i]),
    ensures
        valid_values(heap, parameters(params, args, n)),
    decreases n,
{
    if n > 0 {
        lemma_parameters_are_valid(heap, params, args, (n - 1) as nat);
        let before = parameters(params, args, (n - 1) as nat);
        let after = parameters(params, args, n);
        assert forall|k: Seq<char>| after.contains_key(k) implies valid_object(
            heap,
            #[trigger] after[k],
        ) by {
            if k != params[n - 1].lexeme@ {
                assert(before.contains_key(k));
                assert(valid_object(heap, before[k]));
            }
        }
    }
}

/// The handles in the method table of a class are those of its methods'
/// closures.
pub proof fn lemma_method_table_in_range(methods: Seq<FunctionStmt>, base: nat, n: nat)
    requires
        base + n <= usize::MAX,
    ensures
        forall|k: Seq<char>| #[trigger]
            method_table(methods, base, n).contains_key(k) ==> method_table(methods, base, n)[k]
                < base + n,
    decreases n,
{
    if n > 0 {
        lemma_method_table_in_range(methods, base, (n - 1) as nat);
        let before = method_table(methods, base, (n - 1) as nat);
        let after = method_table(methods, base, n);
        assert forall|k: Seq<char>| #[trigger] after.contains_key(k) implies after[k] < base + n by {
            if k != methods[n - 1].identifier@ {
                assert(before.contains_key(k));
            }
        }
    }
}

/// What a read at a fixed distance finds refers to existing records.
pub proof fn lemma_lookup_at_is_valid(heap: HeapView, env: int, distance: nat, name: Seq<char>)
    requires
        valid_heap(heap),
        lookup_at(heap.scopes, env, distance, name) is Some,
    ensures
        valid_object(heap, lookup_at(heap.scopes, env, distance, name)->0),
{
    lemma_ancestor_exists(heap.scopes, env, distance);
    let s = ancestor(heap.scopes, env, distance)->0;
    assert(valid_values(heap, heap.scopes[s].values));
}

/// What a search by name finds refers to existing records.
pub proof fn lemma_lookup_is_valid(heap: HeapView, env: int, name: Seq<char>)
    requires
        valid_heap(heap),
        lookup(heap.scopes, env, name) is Some,
    ensures
        valid_object(heap, lookup(heap.scopes, env, name)->0),
{
    lemma_defining_scope_exists(heap.scopes, env, name);
    let s = defining_scope(heap.scopes, env, name)->0;
    assert(valid_values(heap, heap.scopes[s].values));
    crate::theorems::lemma_defining_scope_defines(heap.scopes, env, name);
}

proof fn lemma_lookup_var_valid(m: Machine, id: u64, name: Seq<char>)
    requires
        valid(m),
    ensures
        valid(m.lookup_var(id, name)),
{
    if m.locals.contains_key(id) {
        if lookup_at(m.heap.scopes, m.environment as int, m.locals[id] as nat, name) is Some {
            lemma_lookup_at_is_valid(m.heap, m.environment as int, m.locals[id] as nat, name);
        }
    } else {
        if lookup(m.heap.scopes, m.globals as int, name) is Some {
            lemma_lookup_is_valid(m.heap, m.globals as int, name);
        }
    }
}

proof fn lemma_lookup_super_valid(m: Machine, id: u64, method: Seq<char>)
    requires
        valid(m),
        has_room(m, m.lookup_super(id, method)),
    ensures
        valid(m.lookup_super(id, method)),
{
    if m.locals.contains_key(id) && m.locals[id] != 0 {
        let distance = m.locals[id] as nat;
        let scopes = m.heap.scopes;
        let env = m.environment as int;
        let found = lookup_at(scopes, env, (distance - 1) as nat, "this"@);
        if found is Some {
            lemma_lookup_at_is_valid(m.heap, env, (distance - 1) as nat, "this"@);
        }
        match (lookup_at(scopes, env, distance, "super"@), found) {
            (Some(Object::Class(c)), Some(Object::ClassInstance(i))) => {
                match find_method(m.heap.classes, c as int, method) {
                    Some(f) => {
                        if f < m.heap.functions.len() {
                            lemma_bound_keeps_valid(m.heap, f as int, i);
                            lemma_valid_in_larger_stores(m.heap, bound(m.heap, f as int, i));
                        }
                    },
                    None => {},
                }
            },
            _ => {},
        }
    }
}

proof fn lemma_evaluate_valid(m: Machine, expr: &Expr)
    requires
        valid(m),
        has_room(m, m.evaluate(expr)),
    ensures
        valid(m.evaluate(expr)),
{
    match &expr.kind {
        ExprKind::Literal { value } => {
            match value {
                Literal::String(text) => {
                    lemma_text_keeps_valid(m.heap, text@);
                    lemma_valid_in_larger_stores(m.heap, m.heap.with_text(text@));
                },
                _ => {},
            }
        },
        ExprKind::Var { name } => {
            lemma_lookup_var_valid(m, expr.id, name@);
        },
        ExprKind::This { token } => {
            lemma_lookup_var_valid(m, expr.id, token@);
        },
        ExprKind::Super { method, .. } => {
            lemma_lookup_super_valid(m, expr.id, method@);
        },
        _ => {},
    }
}

/// Whether a step from `m` leaves every store short enough for its
/// indices to be counted. Every state of an interpreter is.
pub open spec fn has_room(m: Machine, n: Machine) -> bool {
    &&& n.heap.strings.len() <= usize::MAX
    &&& n.heap.functions.len() <= usize::MAX
    &&& n.heap.classes.len() <= usize::MAX
    &&& n.heap.instances.len() <= usize::MAX
    &&& n.heap.scopes.len() <= usize::MAX
}

proof fn lemma_declare_class_valid(m: Machine, decl: &ClassDecl, superclass: Option<usize>)
    requires
        valid(m),
        m.wf(),
        superclass matches Some(c) ==> c < m.heap.classes.len(),
        m.heap.functions.len() + decl.methods@.len() <= usize::MAX,
        m.heap.classes.len() < usize::MAX,
    ensures
        valid(m.declare_class(decl, superclass)),
{
    let env = m.environment as int;
    lemma_bind_keeps_valid(m.heap, env, decl.name@, Object::Null);
    let h1 = m.heap.with_scopes(bind(m.heap.scopes, env, decl.name@, Object::Null));
    let named = h1.scopes;
    let (h2, closure) = match superclass {
        Some(c) => {
            let scope = Scope {
                parent: Some(m.environment),
                values: Map::<Seq<char>, Object>::empty().insert("super"@, Object::Class(c)),
            };
            assert(valid_values(h1, scope.values)) by {
                assert forall|k: Seq<char>| scope.values.contains_key(k) implies valid_object(
                    h1,
                    #[trigger] scope.values[k],
                ) by {}
            }
            lemma_scope_keeps_valid(h1, scope);
            (h1.with_scopes(named.push(scope)), named.len() as usize)
        },
        None => (h1, m.environment),
    };
    let count = decl.methods@.len();
    let more = method_closures(&decl.methods, closure, count);
    lemma_functions_keep_valid(h2, more);
    let h3 = HeapView { functions: h2.functions + more, ..h2 };
    let base = m.heap.functions.len();
    let class = ClassView {
        name: decl.name@,
        methods: method_table(decl.methods@, base, count),
        superclass,
    };
    lemma_method_table_in_range(decl.methods@, base, count);
    lemma_class_keeps_valid(h3, class);
    let h4 = HeapView { classes: h3.classes.push(class), ..h3 };
    let made = Object::Class(m.heap.classes.len() as usize);
    lemma_bind_keeps_valid(h4, env, decl.name@, made);
    let h5 = h4.with_scopes(bind(h4.scopes, env, decl.name@, made));
    let n = m.declare_class(decl, superclass);
    assert(n.heap.scopes =~= h5.scopes);
    assert(n.heap == h5);
    assert(extends(m.heap, h5));
    lemma_valid_in_larger_stores(m.heap, h5);
}

proof fn lemma_execute_valid(m: Machine, stmt: &Stmt)
    requires
        valid(m),
        m.wf(),
        m.execute(stmt).heap.functions.len() <= usize::MAX,
        m.execute(stmt).heap.classes.len() <= usize::MAX,
    ensures
        valid(m.execute(stmt)),
{
    match stmt {
        Stmt::Block(decls) => {
            let scope = Scope { parent: Some(m.environment), values: Map::empty() };
            assert(valid_values(m.heap, scope.values));
            lemma_scope_keeps_valid(m.heap, scope);
            lemma_valid_in_larger_stores(m.heap, m.heap.with_scopes(m.heap.scopes.push(scope)));
        },
        Stmt::FunctionDecl(decl) => {
            let function = Function { decl, closure: m.environment, is_initializer: false };
            lemma_functions_keep_valid(m.heap, seq![function]);
            let h1 = m.heap.with_function(function);
            assert(h1.functions =~= m.heap.functions + seq![function]);
            assert(h1 == (HeapView { functions: m.heap.functions + seq![function], ..m.heap }));
            let made = Object::Callable(Callable::Function(m.heap.functions.len() as usize));
            lemma_bind_keeps_valid(h1, m.environment as int, decl.identifier@, made);
            let h2 = h1.with_scopes(bind(h1.scopes, m.environment as int, decl.identifier@, made));
            assert(extends(m.heap, h2));
            lemma_valid_in_larger_stores(m.heap, h2);
        },
        Stmt::ClassDecl(decl) => {
            match &decl.superclass {
                Some(_) => {},
                None => {
                    assert(m.declare_class(decl, None).heap.functions.len()
                        == m.heap.functions.len() + decl.methods@.len());
                    lemma_declare_class_valid(m, decl, None);
                },
            }
        },
        _ => {},
    }
}

proof fn lemma_call_function_valid(m: Machine, function: usize, args: Seq<Object>)
    requires
        valid(m),
        callable(m.heap, function),
        forall|i: int| 0 <= i < args.len() ==> valid_object(m.heap, #[trigger] args[i]),
    ensures
        valid(m.call_function(function, args)),
{
    let f = m.heap.functions[function as int];
    let scope = Scope {
        parent: Some(f.closure),
        values: parameters(f.decl.parameters@, args, args.len()),
    };
    lemma_parameters_are_valid(m.heap, f.decl.parameters@, args, args.len());
    lemma_scope_keeps_valid(m.heap, scope);
    lemma_valid_in_larger_stores(m.heap, m.heap.with_scopes(m.heap.scopes.push(scope)));
}

proof fn lemma_construct_valid(m: Machine, class: usize, args: Seq<Object>)
    requires
        valid(m),
        m.wf(),
        class < m.heap.classes.len(),
        forall|i: int| 0 <= i < args.len() ==> valid_object(m.heap, #[trigger] args[i]),
        has_room(m, m.construct(class, args)),
    ensures
        valid(m.construct(class, args)),
{
    let instance = m.heap.instances.len() as usize;
    lemma_instance_keeps_valid(m.heap, class);
    let made = with_instance(m.heap, class);
    lemma_valid_in_larger_stores(m.heap, made);
    match find_method(made.classes, class as int, "init"@) {
        Some(f) => {
            if f < made.functions.len() {
                lemma_bound_keeps_valid(made, f as int, instance);
                let ready_heap = bound(made, f as int, instance);
                lemma_valid_in_larger_stores(made, ready_heap);
                let ready = Machine {
                    heap: ready_heap,
                    frames: m.frames.push(Frame::Construct { instance }),
                    ..m
                };
                assert(valid(ready));
                lemma_call_function_valid(ready, made.functions.len() as usize, args);
            }
        },
        None => {},
    }
}

proof fn lemma_invoke_valid(m: Machine, count: nat)
    requires
        valid(m),
        m.wf(),
        has_room(m, m.invoke(count)),
    ensures
        valid(m.invoke(count)),
{
    if m.operands.len() >= count + 1 {
        let base = m.operands.len() - count - 1;
        let callee = m.operands[base];
        let args = m.operands.subrange(base + 1, m.operands.len() as int);
        let n = Machine { operands: m.operands.take(base), ..m };
        assert(valid(n));
        assert forall|i: int| 0 <= i < args.len() implies valid_object(n.heap, #[trigger] args[i]) by {
            assert(args[i] == m.operands[base + 1 + i]);
        }
        match callee {
            Object::Callable(Callable::Function(f)) => {
                if f < n.heap.functions.len() {
                    lemma_call_function_valid(n, f, args);
                }
            },
            Object::Class(c) => {
                if c < n.heap.classes.len() && constructor_arity(n.heap, c as int) == count {
                    lemma_construct_valid(n, c, args);
                }
            },
            _ => {},
        }
    }
}

proof fn lemma_assign_valid(m: Machine, id: u64, name: Seq<char>, value: Object)
    requires
        valid(m),
        valid_object(m.heap, value),
    ensures
        valid(m.assign(id, name, value)),
{
    let scopes = m.heap.scopes;
    if m.locals.contains_key(id) {
        let distance = m.locals[id] as nat;
        if ancestor(scopes, m.environment as int, distance) is Some {
            lemma_ancestor_exists(scopes, m.environment as int, distance);
            let s = ancestor(scopes, m.environment as int, distance)->0;
            lemma_bind_keeps_valid(m.heap, s, name, value);
            lemma_valid_in_larger_stores(m.heap, m.heap.with_scopes(bind(scopes, s, name, value)));
        }
    } else {
        if defining_scope(scopes, m.globals as int, name) is Some {
            lemma_defining_scope_exists(scopes, m.globals as int, name);
            let s = defining_scope(scopes, m.globals as int, name)->0;
            lemma_bind_keeps_valid(m.heap, s, name, value);
            lemma_valid_in_larger_stores(m.heap, m.heap.with_scopes(bind(scopes, s, name, value)));
        }
    }
}

proof fn lemma_apply_valid(m: Machine, frame: Frame, value: Object)
    requires
        valid(m),
        m.wf(),
        valid_frame(m.heap, frame),
        valid_object(m.heap, value),
        has_room(m, m.apply(frame, value)),
    ensures
        valid(m.apply(frame, value)),
{
    let n = m.apply(frame, value);
    match frame {
        Frame::Operand { op } => {},
        Frame::Left { op, right } => {},
        Frame::Right { op, left } => {
            match (left, value) {
                (Object::String(a), Object::String(b)) => {
                    if a < m.heap.strings.len() && b < m.heap.strings.len() {
                        let text = m.heap.strings[a as int] + m.heap.strings[b as int];
                        lemma_text_keeps_valid(m.heap, text);
                        lemma_valid_in_larger_stores(m.heap, m.heap.with_text(text));
                    }
                },
                _ => {},
            }
        },
        Frame::Logical { op, right } => {},
        Frame::Assign { id, name } => {
            lemma_assign_valid(m, id, name@, value);
        },
        Frame::Callee { args } => {
            let pushed = Machine { operands: m.operands.push(value), ..m };
            assert(valid(pushed));
            if args@.len() == 0 {
                lemma_invoke_valid(pushed, 0);
            }
        },
        Frame::Argument { args, index } => {
            let pushed = Machine { operands: m.operands.push(value), ..m };
            assert(valid(pushed));
            if !(index + 1 < args@.len()) {
                lemma_invoke_valid(pushed, args@.len());
            }
        },
        Frame::GetObject { name } => {
            match value {
                Object::ClassInstance(i) => {
                    if i < m.heap.instances.len() {
                        let record = m.heap.instances[i as int];
                        assert(valid_values(m.heap, record.fields));
                        if !record.fields.contains_key(name@) {
                            match find_method(m.heap.classes, record.class as int, name@) {
                                Some(f) => {
                                    if f < m.heap.functions.len() {
                                        lemma_bound_keeps_valid(m.heap, f as int, i);
                                        lemma_valid_in_larger_stores(
                                            m.heap,
                                            bound(m.heap, f as int, i),
                                        );
                                    }
                                },
                                None => {},
                            }
                        }
                    }
                },
                _ => {},
            }
        },
        Frame::PutObject { name, value: source } => {},
        Frame::PutValue { name, instance } => {
            if instance < m.heap.instances.len() {
                lemma_field_keeps_valid(m.heap, instance as int, name@, value);
                lemma_valid_in_larger_stores(
                    m.heap,
                    with_field(m.heap, instance as int, name@, value),
                );
            }
        },
        Frame::Print => {
            match value {
                Object::String(_) => {},
                Object::Number(_) => {},
                _ => {
                    match description(m.heap, value) {
                        Ok(text) => {
                            lemma_text_keeps_valid(m.heap, text);
                            lemma_valid_in_larger_stores(m.heap, m.heap.with_text(text));
                        },
                        Err(_) => {},
                    }
                },
            }
        },
        Frame::Condition { .. } => {},
        Frame::LoopCondition { .. } => {},
        Frame::LoopBody { .. } => {},
        Frame::Block { .. } => {},
        Frame::Define { name } => {
            lemma_bind_keeps_valid(m.heap, m.environment as int, name@, value);
            lemma_valid_in_larger_stores(
                m.heap,
                m.heap.with_scopes(bind(m.heap.scopes, m.environment as int, name@, value)),
            );
        },
        Frame::Return => {},
        Frame::Superclass { decl } => {
            match value {
                Object::Class(c) => {
                    if c < m.heap.classes.len() {
                        assert(n.heap.functions.len() == m.heap.functions.len()
                            + decl.methods@.len());
                        lemma_declare_class_valid(m, decl, Some(c));
                    }
                },
                _ => {},
            }
        },
        Frame::Call { function, caller, base } => {
            if function < m.heap.functions.len() && m.heap.functions[function as int].is_initializer {
                let closure = m.heap.functions[function as int].closure as int;
                if lookup_at(m.heap.scopes, closure, 0, "this"@) is Some {
                    lemma_lookup_at_is_valid(m.heap, closure, 0, "this"@);
                }
            }
        },
        Frame::Construct { .. } => {},
        Frame::Program { .. } => {},
    }
}

/// Every step keeps handles from dangling.
///
/// If nothing in a state refers to a record that the stores do not hold,
/// then nothing does after a step, whatever the step is and whatever the
/// host answers: every text, closure, class and instance that a variable, a
/// field, a frame, an operand or the value in flight refers to exists.
pub proof fn theorem_step_keeps_valid(m: Machine, event: Event)
    requires
        m.wf(),
        valid(m),
        has_room(m, m.step(event)),
    ensures
        valid(m.step(event)),
{
    match m.control {
        Control::Evaluate(expr) => {
            lemma_evaluate_valid(m, expr);
        },
        Control::Execute(stmt) => {
            lemma_execute_valid(m, stmt);
        },
        Control::Declare(decl) => {
            match decl {
                Declaration::Var { .. } => {},
                Declaration::Statement(stmt) => {
                    lemma_execute_valid(m, stmt);
                },
            }
        },
        Control::Deliver(value) => {
            if m.frames.len() > 0 {
                let popped = Machine { frames: m.frames.drop_last(), ..m };
                assert(valid(popped));
                assert(valid_frame(m.heap, m.frames[m.frames.len() - 1]));
                lemma_apply_valid(popped, m.frames.last(), value);
            }
        },
        Control::Unwind(value) => {
            if m.frames.len() > 0 {
                let popped = Machine { frames: m.frames.drop_last(), ..m };
                assert(valid(popped));
            }
        },
        Control::Await { request, negate } => {},
        Control::Emit(_) => {},
        Control::Finished(_) => {},
        Control::Faulted(_) => {},
    }
}

/// Every value that a program can hold can be printed.
pub proof fn theorem_valid_value_prints(heap: HeapView, value: Object)
    requires
        valid_heap(heap),
        valid_object(heap, value),
    ensures
        rendered(heap, value).1 is Ok,
{
}

/// Operators fail on the values that a program can hold only for the
/// reasons that the language gives: never because a text is missing.
pub proof fn theorem_valid_values_compare(heap: HeapView, left: Object, op: TokenType, right: Object)
    requires
        valid_object(heap, left),
        valid_object(heap, right),
    ensures
        equality(heap, left, right) != Err::<bool, RuntimeError>(RuntimeError::Inconsistent),
        binary(heap, left, op, right).1 != Outcome::Fault(RuntimeError::Inconsistent),
{
}

} // verus!
