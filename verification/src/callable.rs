//! Functions declared by the program.

use vstd::prelude::*;
use vstd::string::StringExecFns;
use crate::environment::{EnvRef, Environment, Scope};
use crate::heap::{Heap, HeapView};
use crate::syntax::FunctionStmt;
use crate::types::{Callable, Identifier, Object, RuntimeError};

verus! {

/// A closure: a function declaration together with the scope it was
/// declared in. It never changes once created.
#[derive(Clone, Copy)]
pub struct Function<'a> {
    pub decl: &'a FunctionStmt,
    pub closure: EnvRef,
    pub is_initializer: bool,
}

/// The scope that binding a method to `instance` puts around the method's
/// own closure: it defines `this` and nothing else.
pub open spec fn receiver_scope(closure: EnvRef, instance: usize) -> Scope {
    Scope {
        parent: Some(closure),
        values: Map::<Seq<char>, Object>::empty().insert(
            "this"@,
            Object::ClassInstance(instance),
        ),
    }
}

/// The stores after closure `function` was bound to `instance`: one new scope
/// and one new closure over it. The closure bound stays as it was.
pub open spec fn bound<'a>(heap: HeapView<'a>, function: int, instance: usize) -> HeapView<'a> {
    let f = heap.functions[function];
    HeapView {
        scopes: heap.scopes.push(receiver_scope(f.closure, instance)),
        functions: heap.functions.push(
            Function {
                decl: f.decl,
                closure: heap.scopes.len() as usize,
                is_initializer: f.is_initializer,
            },
        ),
        ..heap
    }
}

impl<'a> Function<'a> {
    /// A closure of `decl` over the scope `closure`.
    pub fn new(decl: &'a FunctionStmt, closure: EnvRef, is_initializer: bool) -> (function: Self)
        ensures
            function == (Function { decl, closure, is_initializer }),
    {
        Function { decl, closure, is_initializer }
    }

    /// Number of declared parameters.
    pub open spec fn spec_arity(self) -> nat {
        self.decl.parameters@.len()
    }

    /// Number of arguments a call must pass: the number of declared
    /// parameters.
    pub fn arity(&self) -> (n: usize)
        ensures
            n == self.spec_arity(),
    {
        self.decl.parameters.len()
    }

    /// Stores a closure and returns its handle.
    pub fn store(heap: &mut Heap<'a>, function: Function<'a>) -> (id: usize)
        requires
            old(heap).wf(),
            function.closure < old(heap)@.scopes.len(),
        ensures
            id == old(heap)@.functions.len(),
            final(heap)@ == old(heap)@.with_function(function),
            final(heap).wf(),
    {
        let id = heap.functions.len();
        heap.functions.push(function);
        proof {
            heap.lemma_kept(*old(heap));
        }
        assert forall|f: int| 0 <= f < heap@.functions.len() implies (#[trigger] heap@.functions[f]).closure
            < heap@.scopes.len() by {
            if f < old(heap)@.functions.len() {
                assert(heap@.functions[f] == old(heap)@.functions[f]);
            }
        }
        id
    }

    /// Binds closure `function` to `instance`: returns a new callable whose
    /// scope defines `this` as the instance, on top of the scope the closure
    /// was declared in.
    pub fn bind(heap: &mut Heap<'a>, function: usize, instance: usize) -> (method: Object)
        requires
            old(heap).wf(),
            function < old(heap)@.functions.len(),
        ensures
            final(heap)@ == bound(old(heap)@, function as int, instance),
            method == Object::Callable(Callable::Function(old(heap)@.functions.len() as usize)),
            final(heap).wf(),
    {
        let f = heap.functions[function];
        let env = Environment::new_ref(&mut heap.scopes, Some(f.closure));
        let this = Identifier::new("this");
        Environment::define_in(&mut heap.scopes, env, &this, Object::ClassInstance(instance));
        let id = heap.functions.len();
        heap.functions.push(Function::new(f.decl, env, f.is_initializer));
        proof {
            heap.lemma_kept(*old(heap));
            assert(heap@.scopes =~= old(heap)@.scopes.push(receiver_scope(f.closure, instance)));
        }
        Object::Callable(Callable::Function(id))
    }
}

/// Number of arguments that a call of `callable` must pass, if the
/// callable exists.
pub open spec fn callable_arity(heap: HeapView, callable: Callable) -> Option<nat> {
    match callable {
        Callable::Function(f) => if f < heap.functions.len() {
            Some(heap.functions[f as int].spec_arity())
        } else {
            None
        },
        Callable::Builtin(b) => Some(b.spec_arity()),
    }
}

/// What binding `callable` to `instance` yields, and the stores afterwards.
/// Only a function declared by the program can be bound.
pub open spec fn bind_callable<'a>(heap: HeapView<'a>, callable: Callable, instance: usize) -> (
    HeapView<'a>,
    Result<Object, RuntimeError>,
) {
    match callable {
        Callable::Function(f) => if f < heap.functions.len() {
            (
                bound(heap, f as int, instance),
                Ok(Object::Callable(Callable::Function(heap.functions.len() as usize))),
            )
        } else {
            (heap, Err(RuntimeError::Inconsistent))
        },
        Callable::Builtin(_) => (heap, Err(RuntimeError::UnsupportedBind)),
    }
}

impl Callable {
    /// Number of arguments that a call must pass; `None` for a function
    /// that the stores do not hold.
    pub fn arity(&self, heap: &Heap) -> (n: Option<usize>)
        ensures
            match n {
                Some(k) => callable_arity(heap@, *self) == Some(k as nat),
                None => callable_arity(heap@, *self) is None,
            },
    {
        match self {
            Callable::Function(f) => {
                if *f < heap.functions.len() {
                    Some(heap.functions[*f].arity())
                } else {
                    None
                }
            },
            Callable::Builtin(b) => Some(b.arity()),
        }
    }

    /// Binds the callable to `instance`. A function declared by the program
    /// yields a new callable that knows the instance as `this`; a native
    /// function cannot be bound.
    pub fn bind<'a>(&self, heap: &mut Heap<'a>, instance: usize) -> (method: Result<
        Object,
        RuntimeError,
    >)
        requires
            old(heap).wf(),
        ensures
            final(heap)@ == bind_callable(old(heap)@, *self, instance).0,
            method == bind_callable(old(heap)@, *self, instance).1,
            final(heap).wf(),
    {
        match self {
            Callable::Function(f) => {
                if *f < heap.functions.len() {
                    Ok(Function::bind(heap, *f, instance))
                } else {
                    Err(RuntimeError::Inconsistent)
                }
            },
            Callable::Builtin(_) => Err(RuntimeError::UnsupportedBind),
        }
    }
}

} // verus!
