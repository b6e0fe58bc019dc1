//! The evaluator.
//!
//! An `Interpreter` is a machine state in executable form. Its host loads a
//! resolved program, then calls `step` (or `run`) again and again, doing
//! between two calls what the returned action asks for.

use std::collections::HashMap;
use vstd::prelude::*;
use vstd::hash_map::StringHashMap;
use vstd::string::StringExecFns;
use crate::builtins::{get_builtins, Builtin};
use crate::callable::Function;
use crate::class::{Class, ClassInstance};
use crate::environment::{bind, EnvRef, Environment, Scope};
use crate::eval::{eval_binary, eval_literal, eval_logical, eval_unary, Outcome, Request};
use crate::heap::{Heap, HeapView};
use crate::machine::{
    cut, description, global_scope, method_closures, method_table, native_names, parameters,
    Action, Control, Event, Frame, Machine, Output,
};
use crate::syntax::{ClassDecl, Declaration, Expr, ExprKind, Program, Stmt};
use crate::text::{bracket, decimal};
use crate::types::{Callable, Identifier, Object, RuntimeError};
use crate::discipline::{
    disciplined, theorem_loaded_state_is_disciplined, theorem_step_keeps_disciplined,
};
use crate::validity::{theorem_initial_state_is_valid, theorem_step_keeps_valid, valid};

verus! {

broadcast use vstd::std_specs::hash::group_hash_axioms;

/// A machine state in executable form.
pub struct Interpreter<'a> {
    pub heap: Heap<'a>,
    pub locals: HashMap<u64, usize>,
    pub environment: EnvRef,
    pub globals: EnvRef,
    pub frames: Vec<Frame<'a>>,
    pub operands: Vec<Object>,
    pub control: Control<'a>,
}

impl<'a> View for Interpreter<'a> {
    type V = Machine<'a>;

    open spec fn view(&self) -> Machine<'a> {
        Machine {
            heap: self.heap@,
            locals: self.locals@,
            environment: self.environment,
            globals: self.globals,
            frames: self.frames@,
            operands: self.operands@,
            control: self.control,
        }
    }
}

impl<'a> Interpreter<'a> {
    /// Whether the state is well formed.
    pub open spec fn wf(&self) -> bool {
        self@.wf()
    }

    /// An interpreter whose global scope defines the native functions and
    /// that has nothing to run yet.
    pub fn new() -> (interpreter: Interpreter<'a>)
        ensures
            interpreter@ == Machine::<'a>::initial(),
            interpreter.wf(),
            valid(interpreter@),
            disciplined(interpreter@),
    {
        let mut heap = Heap::new();
        let globals = heap.new_scope(None);
        let table = get_builtins();
        let mut i: usize = 0;
        while i < table.len()
            invariant
                i <= table@.len(),
                heap.wf(),
                globals == 0,
                heap@.scopes.len() == 1,
                heap@.scopes[0].parent.is_none(),
                heap@.scopes[0].values == native_names(table@, i as nat),
                heap@.functions.len() == 0,
                heap@.classes.len() == 0,
                heap@.instances.len() == 0,
                heap@.strings.len() == 0,
            decreases table@.len() - i,
        {
            let name = Identifier::new(table[i].0);
            heap.define(globals, &name, table[i].1);
            i += 1;
        }
        let interpreter = Interpreter {
            heap,
            locals: HashMap::new(),
            environment: globals,
            globals,
            frames: Vec::new(),
            operands: Vec::new(),
            control: Control::Finished(Object::Null),
        };
        proof {
            reveal_with_fuel(native_names, 2);
            assert(native_names(table@, 1) == global_scope().values);
            assert(interpreter@.heap.scopes =~= seq![global_scope()]);
            assert(interpreter@.heap.functions =~= Seq::empty());
            assert(interpreter@.heap.classes =~= Seq::empty());
            assert(interpreter@.heap.instances =~= Seq::empty());
            assert(interpreter@.heap.strings =~= Seq::empty());
            assert(interpreter@.frames =~= Seq::empty());
            assert(interpreter@.operands =~= Seq::empty());
            theorem_initial_state_is_valid();
        }
        interpreter
    }

    /// Records that the variable an expression refers to lives `depth` scopes
    /// out from the scope the expression is evaluated in.
    pub fn resolve(&mut self, expr: &Expr, depth: usize)
        ensures
            final(self)@ == old(self)@.annotate(expr.id, depth),
            old(self).wf() ==> final(self).wf(),
            valid(old(self)@) ==> valid(final(self)@),
            disciplined(old(self)@) ==> disciplined(final(self)@),
    {
        self.locals.insert(expr.id, depth);
    }

    /// Whether the resolver recorded a distance for expression `id`, and
    /// which.
    pub fn distance(&self, id: u64) -> (depth: Option<usize>)
        ensures
            depth == if self@.locals.contains_key(id) {
                Some(self@.locals[id])
            } else {
                None
            },
    {
        match self.locals.get(&id) {
            Some(depth) => Some(*depth),
            None => None,
        }
    }

    /// Gets a resolved program ready to run from its first declaration, in
    /// the global scope.
    pub fn interpret(&mut self, program: &'a Program)
        requires
            old(self).wf(),
        ensures
            final(self)@ == old(self)@.load(program),
            final(self).wf(),
            valid(old(self)@) ==> valid(final(self)@),
            disciplined(final(self)@),
    {
        match program {
            Program::Declarations(decls) => {
                let mut frames: Vec<Frame<'a>> = Vec::new();
                frames.push(Frame::Program { decls, next: 0 });
                self.frames = frames;
                self.operands = Vec::new();
                self.environment = self.globals;
                self.control = Control::Deliver(Object::Null);
                proof {
                    assert(self@.frames =~= seq![Frame::Program { decls, next: 0 }]);
                    assert(self@.operands =~= Seq::empty());
                    theorem_loaded_state_is_disciplined(old(self)@, program);
                }
            },
        }
    }

    /// What the host has to do before the next step.
    pub fn action(&self) -> (action: Action<'a>)
        ensures
            action == self@.action(),
    {
        match self.control {
            Control::Await { request, .. } => Action::Ask(request),
            Control::Emit(output) => Action::Print(output),
            Control::Finished(value) => Action::Finished(value),
            Control::Faulted(e) => Action::Fault(e),
            _ => Action::Continue,
        }
    }

    fn settle(&mut self, outcome: Outcome<'a>)
        ensures
            final(self)@ == old(self)@.settle(outcome),
            old(self).wf() ==> final(self).wf(),
    {
        match outcome {
            Outcome::Value(v) => {
                self.control = Control::Deliver(v);
            },
            Outcome::Ask { request, negate } => {
                self.control = Control::Await { request, negate };
            },
            Outcome::Fault(e) => {
                self.control = Control::Faulted(e);
            },
        }
    }

    fn push(&mut self, frame: Frame<'a>)
        requires
            old(self).wf(),
            frame matches Frame::Block { saved, .. } ==> saved < old(self)@.heap.scopes.len(),
            frame matches Frame::Call { caller, .. } ==> caller < old(self)@.heap.scopes.len(),
        ensures
            final(self)@ == old(self)@.push(frame),
            final(self).wf(),
    {
        self.frames.push(frame);
    }

    fn lookup_var(&mut self, id: u64, name: &Identifier)
        requires
            old(self).wf(),
        ensures
            final(self)@ == old(self)@.lookup_var(id, name@),
            final(self).wf(),
    {
        match self.distance(id) {
            Some(distance) => {
                match Environment::get_at(&self.heap.scopes, self.environment, distance, name) {
                    Some(v) => {
                        self.control = Control::Deliver(v);
                    },
                    None => {
                        self.control = Control::Faulted(RuntimeError::Inconsistent);
                    },
                }
            },
            None => {
                match Environment::get(&self.heap.scopes, self.globals, name) {
                    Some(v) => {
                        self.control = Control::Deliver(v);
                    },
                    None => {
                        self.control = Control::Faulted(RuntimeError::UndefinedVariable);
                    },
                }
            },
        }
    }

    fn lookup_super(&mut self, id: u64, method: &Identifier)
        requires
            old(self).wf(),
        ensures
            final(self)@ == old(self)@.lookup_super(id, method@),
            final(self).wf(),
    {
        let distance = match self.distance(id) {
            Some(d) => d,
            None => 0,
        };
        if distance == 0 {
            self.control = Control::Faulted(RuntimeError::Inconsistent);
            return ;
        }
        let super_name = Identifier::new("super");
        let this_name = Identifier::new("this");
        let superclass = Environment::get_at(
            &self.heap.scopes,
            self.environment,
            distance,
            &super_name,
        );
        let this = Environment::get_at(
            &self.heap.scopes,
            self.environment,
            distance - 1,
            &this_name,
        );
        match (superclass, this) {
            (Some(Object::Class(c)), Some(Object::ClassInstance(i))) => {
                if c >= self.heap.classes.len() {
                    self.control = Control::Faulted(RuntimeError::Inconsistent);
                    return ;
                }
                match Class::find_method(&self.heap, c, method) {
                    Some(f) => {
                        if f < self.heap.functions.len() {
                            let bound = Function::bind(&mut self.heap, f, i);
                            self.control = Control::Deliver(bound);
                        } else {
                            self.control = Control::Faulted(RuntimeError::Inconsistent);
                        }
                    },
                    None => {
                        self.control = Control::Faulted(RuntimeError::UndefinedProperty);
                    },
                }
            },
            _ => {
                self.control = Control::Faulted(RuntimeError::Inconsistent);
            },
        }
    }

    /// Starts the evaluation of `expr`. The value arrives at the innermost
    /// frame after as many steps as the expression needs.
    pub fn eval(&mut self, expr: &'a Expr)
        requires
            old(self).wf(),
        ensures
            final(self)@ == old(self)@.evaluate(expr),
            final(self).wf(),
    {
        match &expr.kind {
            ExprKind::Literal { value } => {
                let outcome = eval_literal(&mut self.heap, value);
                self.settle(outcome);
            },
            ExprKind::Grouping { expr: inner } => {
                self.control = Control::Evaluate(inner);
            },
            ExprKind::Unary { op, right } => {
                if op.typ == crate::scanner::TokenType::Minus {
                    self.push(Frame::Operand { op: op.typ });
                    self.control = Control::Evaluate(right);
                } else {
                    self.control = Control::Faulted(RuntimeError::UnsupportedOperator);
                }
            },
            ExprKind::Binary { left, op, right } => {
                self.push(Frame::Left { op: op.typ, right });
                self.control = Control::Evaluate(left);
            },
            ExprKind::Logical { left, op, right } => {
                self.push(Frame::Logical { op: op.typ, right });
                self.control = Control::Evaluate(left);
            },
            ExprKind::Var { name } => {
                self.lookup_var(expr.id, name);
            },
            ExprKind::This { token } => {
                self.lookup_var(expr.id, token);
            },
            ExprKind::Assign { name, expr: value } => {
                self.push(Frame::Assign { id: expr.id, name });
                self.control = Control::Evaluate(value);
            },
            ExprKind::Call { callee, args, .. } => {
                self.push(Frame::Callee { args });
                self.control = Control::Evaluate(callee);
            },
            ExprKind::Get { name, object } => {
                self.push(Frame::GetObject { name });
                self.control = Control::Evaluate(object);
            },
            ExprKind::Put { object, name, value } => {
                self.push(Frame::PutObject { name, value });
                self.control = Control::Evaluate(object);
            },
            ExprKind::Super { method, .. } => {
                self.lookup_super(expr.id, method);
            },
        }
    }

    /// Enters a block: its declarations run in scope `env`, and the scope in
    /// force now is back in force when the block is left, whether it runs to
    /// its end or a `return` leaves it.
    pub fn execute_block(&mut self, decls: &'a Vec<Declaration>, env: EnvRef)
        requires
            old(self).wf(),
            env < old(self)@.heap.scopes.len(),
        ensures
            final(self)@ == old(self)@.enter_block(decls, env),
            final(self).wf(),
    {
        let saved = self.environment;
        self.push(Frame::Block { decls, next: 0, saved });
        self.environment = env;
        self.control = Control::Deliver(Object::Null);
    }

    fn declare_class(&mut self, decl: &'a ClassDecl, superclass: Option<usize>)
        requires
            old(self).wf(),
            superclass matches Some(c) ==> c < old(self)@.heap.classes.len(),
        ensures
            final(self)@ == old(self)@.declare_class(decl, superclass),
            final(self).wf(),
    {
        let env = self.environment;
        let ghost before = self@;
        self.heap.define(env, &decl.name, Object::Null);
        let ghost named = self@.heap.scopes;
        let closure = match superclass {
            Some(c) => {
                let scope = self.heap.new_scope(Some(env));
                let super_name = Identifier::new("super");
                self.heap.define(scope, &super_name, Object::Class(c));
                scope
            },
            None => env,
        };
        let ghost scopes = self@.heap.scopes;
        proof {
            match superclass {
                Some(c) => {
                    assert(scopes =~= named.push(
                        Scope {
                            parent: Some(env),
                            values: Map::<Seq<char>, Object>::empty().insert(
                                "super"@,
                                Object::Class(c),
                            ),
                        },
                    ));
                },
                None => {},
            }
        }
        let base = self.heap.functions.len();
        let mut methods: StringHashMap<usize> = StringHashMap::new();
        let mut i: usize = 0;
        while i < decl.methods.len()
            invariant
                i <= decl.methods@.len(),
                self.wf(),
                closure < self@.heap.scopes.len(),
                base == before.heap.functions.len(),
                self@ == before.with_heap(
                    HeapView {
                        scopes,
                        functions: before.heap.functions + method_closures(
                            &decl.methods,
                            closure,
                            i as nat,
                        ),
                        ..before.heap
                    },
                ),
                methods@ == method_table(decl.methods@, base as nat, i as nat),
            decreases decl.methods@.len() - i,
        {
            let method = &decl.methods[i];
            let function = Function::new(method, closure, method.identifier.is("init"));
            let id = Function::store(&mut self.heap, function);
            methods.insert(method.identifier.clone().0, id);
            proof {
                assert(self@.heap.functions =~= before.heap.functions + method_closures(
                    &decl.methods,
                    closure,
                    (i + 1) as nat,
                ));
            }
            i += 1;
        }
        let class = Class::new(&mut self.heap, decl.name.clone(), superclass, methods);
        self.heap.define(env, &decl.name, Object::Class(class));
        self.control = Control::Deliver(Object::Null);
    }

    /// Starts the execution of `stmt`. Its completion value, or the value it
    /// returns, arrives at the innermost frame after as many steps as the
    /// statement needs.
    pub fn execute_stmt(&mut self, stmt: &'a Stmt)
        requires
            old(self).wf(),
        ensures
            final(self)@ == old(self)@.execute(stmt),
            final(self).wf(),
    {
        match stmt {
            Stmt::Expr(expr) => {
                self.control = Control::Evaluate(expr);
            },
            Stmt::Print(expr) => {
                self.push(Frame::Print);
                self.control = Control::Evaluate(expr);
            },
            Stmt::If { condition, then_branch, else_branch } => {
                self.push(Frame::Condition { then_branch, else_branch });
                self.control = Control::Evaluate(condition);
            },
            Stmt::While { condition, body } => {
                self.push(Frame::LoopCondition { condition, body });
                self.control = Control::Evaluate(condition);
            },
            Stmt::Block(decls) => {
                let env = self.heap.new_scope(Some(self.environment));
                self.execute_block(decls, env);
            },
            Stmt::FunctionDecl(decl) => {
                let function = Function::new(decl, self.environment, false);
                let id = Function::store(&mut self.heap, function);
                self.heap.define(
                    self.environment,
                    &decl.identifier,
                    Object::Callable(Callable::Function(id)),
                );
                self.control = Control::Deliver(Object::Null);
            },
            Stmt::Return { value } => {
                match value {
                    Some(expr) => {
                        self.push(Frame::Return);
                        self.control = Control::Evaluate(expr);
                    },
                    None => {
                        self.control = Control::Unwind(Object::Null);
                    },
                }
            },
            Stmt::ClassDecl(decl) => {
                match &decl.superclass {
                    Some(expr) => {
                        self.push(Frame::Superclass { decl });
                        self.control = Control::Evaluate(expr);
                    },
                    None => {
                        self.declare_class(decl, None);
                    },
                }
            },
        }
    }

    /// Starts the execution of `decl`.
    pub fn execute(&mut self, decl: &'a Declaration)
        requires
            old(self).wf(),
        ensures
            final(self)@ == old(self)@.declare(decl),
            final(self).wf(),
    {
        match decl {
            Declaration::Var { identifier, expression } => {
                self.push(Frame::Define { name: identifier });
                self.control = Control::Evaluate(expression);
            },
            Declaration::Statement(stmt) => {
                self.execute_stmt(stmt);
            },
        }
    }

    fn call_function(&mut self, function: usize, args: Vec<Object>)
        requires
            old(self).wf(),
            function < old(self)@.heap.functions.len(),
            args@.len() == old(self)@.heap.functions[function as int].spec_arity(),
        ensures
            final(self)@ == old(self)@.call_function(function, args@),
            final(self).wf(),
    {
        let f = self.heap.functions[function];
        let ghost before = self@;
        let env = self.heap.new_scope(Some(f.closure));
        let mut i: usize = 0;
        while i < f.decl.parameters.len()
            invariant
                i <= f.decl.parameters@.len(),
                f.decl.parameters@.len() == args@.len(),
                self.wf(),
                env == before.heap.scopes.len(),
                env < self@.heap.scopes.len(),
                self@ == before.with_scopes(
                    before.heap.scopes.push(
                        Scope {
                            parent: Some(f.closure),
                            values: parameters(f.decl.parameters@, args@, i as nat),
                        },
                    ),
                ),
            decreases f.decl.parameters@.len() - i,
        {
            let name = Identifier(f.decl.parameters[i].lexeme.clone());
            self.heap.define(env, &name, args[i]);
            proof {
                assert(self@.heap.scopes =~= before.heap.scopes.push(
                    Scope {
                        parent: Some(f.closure),
                        values: parameters(f.decl.parameters@, args@, (i + 1) as nat),
                    },
                ));
            }
            i += 1;
        }
        let caller = self.environment;
        let base = self.operands.len();
        self.push(Frame::Call { function, caller, base });
        self.execute_block(&f.decl.body, env);
    }

    fn construct(&mut self, class: usize, args: Vec<Object>)
        requires
            old(self).wf(),
            class < old(self)@.heap.classes.len(),
            args@.len() == crate::class::constructor_arity(old(self)@.heap, class as int),
        ensures
            final(self)@ == old(self)@.construct(class, args@),
            final(self).wf(),
    {
        let instance = ClassInstance::new(&mut self.heap, class);
        let init = Identifier::new("init");
        match Class::find_method(&self.heap, class, &init) {
            Some(f) => {
                if f < self.heap.functions.len() {
                    let id = self.heap.functions.len();
                    let _ = Function::bind(&mut self.heap, f, instance);
                    self.push(Frame::Construct { instance });
                    self.call_function(id, args);
                } else {
                    self.control = Control::Faulted(RuntimeError::Inconsistent);
                }
            },
            None => {
                self.control = Control::Deliver(Object::ClassInstance(instance));
            },
        }
    }

    fn eval_call(&mut self, count: usize)
        requires
            old(self).wf(),
        ensures
            final(self)@ == old(self)@.invoke(count as nat),
            final(self).wf(),
    {
        if self.operands.len() <= count {
            self.control = Control::Faulted(RuntimeError::Inconsistent);
            return ;
        }
        let base = self.operands.len() - count - 1;
        let callee = self.operands[base];
        let args = self.operands.split_off(base + 1);
        self.operands.truncate(base);
        proof {
            assert(self@.operands =~= old(self)@.operands.take(base as int));
        }
        match callee {
            Object::Callable(Callable::Function(f)) => {
                if f >= self.heap.functions.len() {
                    self.control = Control::Faulted(RuntimeError::Inconsistent);
                } else if self.heap.functions[f].arity() != count {
                    self.control = Control::Faulted(RuntimeError::ArityMismatch);
                } else {
                    self.call_function(f, args);
                }
            },
            Object::Callable(Callable::Builtin(b)) => {
                if b.arity() != count {
                    self.control = Control::Faulted(RuntimeError::ArityMismatch);
                } else {
                    match b {
                        Builtin::Clock => {
                            self.control = Control::Await { request: Request::Clock, negate: false };
                        },
                    }
                }
            },
            Object::Class(c) => {
                if c >= self.heap.classes.len() {
                    self.control = Control::Faulted(RuntimeError::Inconsistent);
                } else if Class::arity(&self.heap, c) != count {
                    self.control = Control::Faulted(RuntimeError::ArityMismatch);
                } else {
                    self.construct(c, args);
                }
            },
            _ => {
                self.control = Control::Faulted(RuntimeError::NotCallable);
            },
        }
    }

    fn eval_assign(&mut self, id: u64, name: &Identifier, value: Object)
        requires
            old(self).wf(),
        ensures
            final(self)@ == old(self)@.assign(id, name@, value),
            final(self).wf(),
    {
        match self.distance(id) {
            Some(distance) => {
                if self.heap.assign_at(self.environment, distance, name, value) {
                    self.control = Control::Deliver(value);
                } else {
                    self.control = Control::Faulted(RuntimeError::Inconsistent);
                }
            },
            None => {
                match self.heap.mutate(self.globals, name, value) {
                    Some(_) => {
                        self.control = Control::Deliver(value);
                    },
                    None => {
                        self.control = Control::Faulted(RuntimeError::UndefinedVariable);
                    },
                }
            },
        }
    }

    fn eval_get(&mut self, name: &Identifier, object: Object)
        requires
            old(self).wf(),
        ensures
            final(self)@ == old(self)@.apply(Frame::GetObject { name }, object),
            final(self).wf(),
    {
        match object {
            Object::ClassInstance(i) => {
                if i < self.heap.instances.len() {
                    match ClassInstance::get(&mut self.heap, i, name) {
                        Ok(v) => {
                            self.control = Control::Deliver(v);
                        },
                        Err(e) => {
                            self.control = Control::Faulted(e);
                        },
                    }
                } else {
                    self.control = Control::Faulted(RuntimeError::Inconsistent);
                }
            },
            _ => {
                self.control = Control::Faulted(RuntimeError::NotAnInstance);
            },
        }
    }

    fn eval_set(&mut self, name: &Identifier, instance: usize, value: Object)
        requires
            old(self).wf(),
        ensures
            final(self)@ == old(self)@.apply(Frame::PutValue { name, instance }, value),
            final(self).wf(),
    {
        if instance < self.heap.instances.len() {
            ClassInstance::set(&mut self.heap, instance, name, value);
            self.control = Control::Deliver(value);
        } else {
            self.control = Control::Faulted(RuntimeError::Inconsistent);
        }
    }

    /// The text that `print` writes for a value that is neither a number
    /// nor a text.
    pub fn describe(&self, value: Object) -> (text: Result<String, RuntimeError>)
        ensures
            match text {
                Ok(t) => description(self@.heap, value) == Ok::<Seq<char>, RuntimeError>(t@),
                Err(e) => description(self@.heap, value) == Err::<Seq<char>, RuntimeError>(e),
            },
    {
        match value {
            Object::Boolean(b) => Ok(
                if b {
                    String::from_str("true")
                } else {
                    String::from_str("false")
                },
            ),
            Object::Null => Ok(String::from_str("null")),
            Object::Callable(Callable::Function(f)) => {
                if f < self.heap.functions.len() {
                    let arity = decimal(self.heap.functions[f].arity());
                    Ok(bracket("<callable:", arity.as_str(), ">"))
                } else {
                    Err(RuntimeError::Inconsistent)
                }
            },
            Object::Callable(Callable::Builtin(b)) => {
                let arity = decimal(b.arity());
                Ok(bracket("<callable:", arity.as_str(), ">"))
            },
            Object::Class(c) => {
                if c < self.heap.classes.len() {
                    let class = &self.heap.classes[c];
                    assert(class@ == self@.heap.classes[c as int]);
                    Ok(bracket("<class:", class.name.as_str(), ">"))
                } else {
                    Err(RuntimeError::Inconsistent)
                }
            },
            Object::ClassInstance(i) => {
                if i < self.heap.instances.len() {
                    let record = &self.heap.instances[i];
                    assert(record@ == self@.heap.instances[i as int]);
                    if record.class < self.heap.classes.len() {
                        let class = &self.heap.classes[record.class];
                        assert(class@ == self@.heap.classes[record.class as int]);
                        Ok(bracket("<instance:", class.name.as_str(), ">"))
                    } else {
                        Err(RuntimeError::Inconsistent)
                    }
                } else {
                    Err(RuntimeError::Inconsistent)
                }
            },
            _ => Err(RuntimeError::Inconsistent),
        }
    }

    fn print(&mut self, value: Object)
        requires
            old(self).wf(),
        ensures
            final(self)@ == old(self)@.apply(Frame::Print, value),
            final(self).wf(),
    {
        match value {
            Object::String(id) => {
                if id < self.heap.strings.len() {
                    self.control = Control::Emit(Output::Text(id));
                } else {
                    self.control = Control::Faulted(RuntimeError::Inconsistent);
                }
            },
            Object::Number(n) => {
                self.control = Control::Emit(Output::Number(n));
            },
            _ => {
                match self.describe(value) {
                    Ok(text) => {
                        match self.heap.add_text(text) {
                            Object::String(id) => {
                                self.control = Control::Emit(Output::Text(id));
                            },
                            _ => {},
                        }
                    },
                    Err(e) => {
                        self.control = Control::Faulted(e);
                    },
                }
            },
        }
    }

    fn finish_call(&mut self, function: usize, caller: EnvRef, base: usize, value: Object)
        requires
            old(self).wf(),
            caller < old(self)@.heap.scopes.len(),
        ensures
            final(self)@ == old(self)@.apply(Frame::Call { function, caller, base }, value),
            final(self).wf(),
    {
        self.environment = caller;
        self.operands.truncate(base);
        proof {
            assert(self@.operands =~= cut(old(self)@.operands, base as nat));
        }
        if function < self.heap.functions.len() {
            let f = self.heap.functions[function];
            if !f.is_initializer {
                self.control = Control::Deliver(value);
            } else {
                let this_name = Identifier::new("this");
                match Environment::get_at(&self.heap.scopes, f.closure, 0, &this_name) {
                    Some(this) => {
                        self.control = Control::Deliver(this);
                    },
                    None => {
                        self.control = Control::Faulted(RuntimeError::Inconsistent);
                    },
                }
            }
        } else {
            self.control = Control::Faulted(RuntimeError::Inconsistent);
        }
    }

    fn apply(&mut self, frame: Frame<'a>, value: Object)
        requires
            old(self).wf(),
            frame matches Frame::Block { saved, .. } ==> saved < old(self)@.heap.scopes.len(),
            frame matches Frame::Call { caller, .. } ==> caller < old(self)@.heap.scopes.len(),
        ensures
            final(self)@ == old(self)@.apply(frame, value),
            final(self).wf(),
    {
        match frame {
            Frame::Operand { op } => {
                self.settle(eval_unary(op, value));
            },
            Frame::Left { op, right } => {
                self.push(Frame::Right { op, left: value });
                self.control = Control::Evaluate(right);
            },
            Frame::Right { op, left } => {
                let outcome = eval_binary(&mut self.heap, left, op, value);
                self.settle(outcome);
            },
            Frame::Logical { op, right } => {
                match eval_logical(op, value) {
                    Ok(decided) => {
                        if decided {
                            self.control = Control::Deliver(value);
                        } else {
                            self.control = Control::Evaluate(right);
                        }
                    },
                    Err(e) => {
                        self.control = Control::Faulted(e);
                    },
                }
            },
            Frame::Assign { id, name } => {
                self.eval_assign(id, name, value);
            },
            Frame::Callee { args } => {
                self.operands.push(value);
                if args.len() == 0 {
                    self.eval_call(0);
                } else {
                    self.push(Frame::Argument { args, index: 0 });
                    self.control = Control::Evaluate(&args[0]);
                }
            },
            Frame::Argument { args, index } => {
                self.operands.push(value);
                if index < args.len() && index + 1 < args.len() {
                    self.push(Frame::Argument { args, index: index + 1 });
                    self.control = Control::Evaluate(&args[index + 1]);
                } else {
                    self.eval_call(args.len());
                }
            },
            Frame::GetObject { name } => {
                self.eval_get(name, value);
            },
            Frame::PutObject { name, value: source } => {
                match value {
                    Object::ClassInstance(i) => {
                        self.push(Frame::PutValue { name, instance: i });
                        self.control = Control::Evaluate(source);
                    },
                    _ => {
                        self.control = Control::Faulted(RuntimeError::NotAnInstance);
                    },
                }
            },
            Frame::PutValue { name, instance } => {
                self.eval_set(name, instance, value);
            },
            Frame::Print => {
                self.print(value);
            },
            Frame::Condition { then_branch, else_branch } => {
                match value {
                    Object::Boolean(true) => {
                        self.control = Control::Execute(then_branch);
                    },
                    Object::Boolean(false) => {
                        match else_branch {
                            Some(stmt) => {
                                self.control = Control::Execute(stmt);
                            },
                            None => {
                                self.control = Control::Deliver(Object::Null);
                            },
                        }
                    },
                    _ => {
                        self.control = Control::Faulted(RuntimeError::NonBoolean);
                    },
                }
            },
            Frame::LoopCondition { condition, body } => {
                match value {
                    Object::Boolean(true) => {
                        self.push(Frame::LoopBody { condition, body });
                        self.control = Control::Execute(body);
                    },
                    Object::Boolean(false) => {
                        self.control = Control::Deliver(Object::Null);
                    },
                    _ => {
                        self.control = Control::Faulted(RuntimeError::NonBoolean);
                    },
                }
            },
            Frame::LoopBody { condition, body } => {
                self.push(Frame::LoopCondition { condition, body });
                self.control = Control::Evaluate(condition);
            },
            Frame::Block { decls, next, saved } => {
                if next < decls.len() {
                    self.push(Frame::Block { decls, next: next + 1, saved });
                    self.control = Control::Declare(&decls[next]);
                } else {
                    self.environment = saved;
                    self.control = Control::Deliver(value);
                }
            },
            Frame::Define { name } => {
                self.heap.define(self.environment, name, value);
                self.control = Control::Deliver(Object::Null);
            },
            Frame::Return => {
                self.control = Control::Unwind(value);
            },
            Frame::Superclass { decl } => {
                match value {
                    Object::Class(c) => {
                        if c < self.heap.classes.len() {
                            self.declare_class(decl, Some(c));
                        } else {
                            self.control = Control::Faulted(RuntimeError::Inconsistent);
                        }
                    },
                    _ => {
                        self.control = Control::Faulted(RuntimeError::SuperclassNotClass);
                    },
                }
            },
            Frame::Call { function, caller, base } => {
                self.finish_call(function, caller, base, value);
            },
            Frame::Construct { instance } => {
                self.control = Control::Deliver(Object::ClassInstance(instance));
            },
            Frame::Program { decls, next } => {
                if next < decls.len() {
                    self.push(Frame::Program { decls, next: next + 1 });
                    self.control = Control::Declare(&decls[next]);
                } else {
                    self.control = Control::Finished(value);
                }
            },
        }
    }

    fn resume(&mut self, value: Object)
        requires
            old(self).wf(),
        ensures
            final(self)@ == old(self)@.resume(value),
            final(self).wf(),
    {
        match self.frames.pop() {
            None => {
                self.control = Control::Finished(value);
            },
            Some(frame) => {
                proof {
                    assert(frame == old(self)@.frames[old(self)@.frames.len() - 1]);
                    assert(self@.frames =~= old(self)@.frames.drop_last());
                    assert forall|i: int| 0 <= i < self@.frames.len() implies self@.frames[i]
                        == old(self)@.frames[i] by {}
                }
                self.apply(frame, value);
            },
        }
    }

    fn unwind(&mut self, value: Object)
        requires
            old(self).wf(),
        ensures
            final(self)@ == old(self)@.unwind(value),
            final(self).wf(),
    {
        match self.frames.pop() {
            None => {
                self.control = Control::Finished(value);
            },
            Some(frame) => {
                proof {
                    assert(frame == old(self)@.frames[old(self)@.frames.len() - 1]);
                    assert(self@.frames =~= old(self)@.frames.drop_last());
                    assert forall|i: int| 0 <= i < self@.frames.len() implies self@.frames[i]
                        == old(self)@.frames[i] by {}
                }
                match frame {
                    Frame::Call { caller, base, .. } => {
                        self.environment = caller;
                        self.operands.truncate(base);
                        proof {
                            assert(self@.operands =~= cut(old(self)@.operands, base as nat));
                        }
                        self.control = Control::Deliver(value);
                    },
                    Frame::Block { saved, .. } => {
                        self.environment = saved;
                    },
                    Frame::Program { .. } => {
                        self.frames.push(frame);
                        proof {
                            assert(self@.frames =~= old(self)@.frames);
                        }
                        self.control = Control::Deliver(value);
                    },
                    _ => {},
                }
            },
        }
    }

    fn answer(&mut self, request: Request<'a>, negate: bool, event: Event)
        ensures
            final(self)@ == old(self)@.answer(request, negate, event),
            old(self).wf() ==> final(self).wf(),
    {
        match event {
            Event::Number(n) => {
                if request.answered_by_truth() {
                    self.control = Control::Faulted(RuntimeError::UnexpectedEvent);
                } else {
                    self.control = Control::Deliver(Object::Number(n));
                }
            },
            Event::Boolean(b) => {
                if request.answered_by_truth() {
                    self.control = Control::Deliver(Object::Boolean(b != negate));
                } else {
                    self.control = Control::Faulted(RuntimeError::UnexpectedEvent);
                }
            },
            Event::Resume => {
                self.control = Control::Faulted(RuntimeError::UnexpectedEvent);
            },
        }
    }

    /// Makes one transition and says what the host has to do before the
    /// next. `event` is the host's answer to the request of the previous
    /// action, and `Event::Resume` when that action asked nothing.
    pub fn step(&mut self, event: Event) -> (action: Action<'a>)
        requires
            old(self).wf(),
        ensures
            final(self)@ == old(self)@.step(event),
            action == final(self)@.action(),
            final(self).wf(),
            action matches Action::Print(Output::Text(id)) ==> id < final(self)@.heap.strings.len(),
            valid(old(self)@) ==> valid(final(self)@),
            disciplined(old(self)@) ==> disciplined(final(self)@),
    {
        match self.control {
            Control::Evaluate(expr) => {
                self.eval(expr);
            },
            Control::Execute(stmt) => {
                self.execute_stmt(stmt);
            },
            Control::Declare(decl) => {
                self.execute(decl);
            },
            Control::Deliver(value) => {
                self.resume(value);
            },
            Control::Unwind(value) => {
                self.unwind(value);
            },
            Control::Await { request, negate } => {
                self.answer(request, negate, event);
            },
            Control::Emit(_) => {
                self.control = Control::Deliver(Object::Null);
            },
            Control::Finished(_) => {},
            Control::Faulted(_) => {},
        }
        proof {
            if valid(old(self)@) {
                theorem_step_keeps_valid(old(self)@, event);
            }
            if disciplined(old(self)@) {
                assert(old(self).operands.len() == old(self).operands@.len());
                theorem_step_keeps_disciplined(old(self)@, event);
            }
        }
        self.action()
    }

    /// Makes the step that takes `event`, then up to `budget` further steps,
    /// and stops early as soon as the host has something to do. Returns
    /// `Action::Continue` when the budget ran out first.
    pub fn run(&mut self, event: Event, budget: u64) -> (action: Action<'a>)
        requires
            old(self).wf(),
        ensures
            final(self)@ == old(self)@.run(event, budget as nat),
            action == final(self)@.action(),
            final(self).wf(),
            action matches Action::Print(Output::Text(id)) ==> id < final(self)@.heap.strings.len(),
            valid(old(self)@) ==> valid(final(self)@),
            disciplined(old(self)@) ==> disciplined(final(self)@),
    {
        let mut action = self.step(event);
        let mut left: u64 = budget;
        while left > 0 && matches!(action, Action::Continue)
            invariant
                self.wf(),
                action == self@.action(),
                valid(old(self)@) ==> valid(self@),
                disciplined(old(self)@) ==> disciplined(self@),
                action matches Action::Print(Output::Text(id)) ==> id < self@.heap.strings.len(),
                old(self)@.run(event, budget as nat) == if left == 0 || !(self@.action()
                    is Continue) {
                    self@
                } else {
                    self@.run(Event::Resume, (left - 1) as nat)
                },
            decreases left,
        {
            action = self.step(Event::Resume);
            left = left - 1;
        }
        action
    }
}

} // verus!
