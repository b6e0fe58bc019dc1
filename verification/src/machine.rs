//! The evaluator as an abstract machine.
//!
//! A machine state holds the stores, the scope in force, what is being
//! evaluated, and a stack of frames that say what to do with each result.
//! `Machine::step` is the whole semantics of the language: one transition
//! from a state and the host's last answer to the next state. Whenever the
//! next move is the host's (print a line, compute with numbers, read the
//! clock), the state says so and waits.

use vstd::prelude::*;
use crate::builtins::Builtin;
use crate::callable::{bound, Function};
use crate::class::{constructor_arity, find_method, property, with_field, with_instance, ClassView};
use crate::environment::{ancestor, bind, bind_at, lookup, lookup_at, rebind, EnvRef, Scope};
use crate::eval::{binary, literal, logical, unary, Outcome, Request};
use crate::heap::HeapView;
use crate::scanner::{Token, TokenType};
use crate::syntax::{ClassDecl, Declaration, Expr, ExprKind, FunctionStmt, Program, Stmt};
use crate::text::decimal_text;
use crate::types::{Callable, Identifier, Object, RuntimeError};

verus! {

/// What a `print` statement hands to the host: a stored text to write as it
/// is, or a number to write in its natural decimal form.
#[derive(Clone, Copy, PartialEq, Eq, Structural, Debug)]
pub enum Output {
    Text(usize),
    Number(u64),
}

/// What the host has to do before the next step.
#[derive(Clone, Copy, Debug)]
pub enum Action<'a> {
    /// Nothing; step again.
    Continue,
    /// Write one line.
    Print(Output),
    /// Answer the request with the next event.
    Ask(Request<'a>),
    /// Nothing more: the run is over. The value is that of the last
    /// declaration or expression that was run, `Null` if it has none.
    Finished(Object),
    /// Nothing more: the run has failed.
    Fault(RuntimeError),
}

/// What the host hands to a step.
#[derive(Clone, Copy, PartialEq, Eq, Structural, Debug)]
pub enum Event {
    /// No answer was asked for.
    Resume,
    /// The number asked for.
    Number(u64),
    /// The truth value asked for.
    Boolean(bool),
}

/// What the machine does next.
#[derive(Clone, Copy, Debug)]
pub enum Control<'a> {
    /// Evaluate an expression.
    Evaluate(&'a Expr),
    /// Execute a statement.
    Execute(&'a Stmt),
    /// Execute a declaration.
    Declare(&'a Declaration),
    /// Hand a value to the innermost frame.
    Deliver(Object),
    /// Carry the value of a `return` outwards to the call it returns from.
    Unwind(Object),
    /// Wait for the host to answer; a truth value is negated if `negate`.
    Await { request: Request<'a>, negate: bool },
    /// Wait for the host to print.
    Emit(Output),
    /// The run is over, with the value of what was run last.
    Finished(Object),
    Faulted(RuntimeError),
}

/// What remains to be done once a value arrives.
#[derive(Clone, Copy, Debug)]
pub enum Frame<'a> {
    /// Apply a prefix operator to the value.
    Operand { op: TokenType },
    /// The value is the left operand; evaluate the right one.
    Left { op: TokenType, right: &'a Expr },
    /// The value is the right operand; apply the operator.
    Right { op: TokenType, left: Object },
    /// The value is the left operand of `and` / `or`.
    Logical { op: TokenType, right: &'a Expr },
    /// Assign the value to a variable.
    Assign { id: u64, name: &'a Identifier },
    /// The value is the callee; evaluate the arguments.
    Callee { args: &'a Vec<Expr> },
    /// The value is argument `index`; evaluate the rest, then call.
    Argument { args: &'a Vec<Expr>, index: usize },
    /// Read a property of the value.
    GetObject { name: &'a Identifier },
    /// The value is the object of a property assignment.
    PutObject { name: &'a Identifier, value: &'a Expr },
    /// Assign the value to a field of the instance.
    PutValue { name: &'a Identifier, instance: usize },
    /// Print the value.
    Print,
    /// The value is the condition of an `if`.
    Condition { then_branch: &'a Stmt, else_branch: &'a Option<Box<Stmt>> },
    /// The value is the condition of a `while`.
    LoopCondition { condition: &'a Expr, body: &'a Stmt },
    /// The body of a `while` has completed.
    LoopBody { condition: &'a Expr, body: &'a Stmt },
    /// A declaration of a block has completed; `saved` is the scope to go
    /// back to when the block is left.
    Block { decls: &'a Vec<Declaration>, next: usize, saved: EnvRef },
    /// Define a variable with the value.
    Define { name: &'a Identifier },
    /// Return the value from the enclosing call.
    Return,
    /// The value is the superclass of a class being declared.
    Superclass { decl: &'a ClassDecl },
    /// The body of a call has completed; `caller` is the scope the call was
    /// made in and `base` the number of operands it found.
    Call { function: usize, caller: EnvRef, base: usize },
    /// The initializer of a new instance has completed.
    Construct { instance: usize },
    /// A top-level declaration has completed.
    Program { decls: &'a Vec<Declaration>, next: usize },
}

/// A state of the evaluator.
pub struct Machine<'a> {
    pub heap: HeapView<'a>,
    /// Scope distances found by the resolver, by expression id.
    pub locals: Map<u64, usize>,
    /// The scope in force.
    pub environment: EnvRef,
    /// The global scope.
    pub globals: EnvRef,
    pub frames: Seq<Frame<'a>>,
    /// Callees and arguments of the calls being prepared.
    pub operands: Seq<Object>,
    pub control: Control<'a>,
}

/// The scope a call starts in: each parameter bound to its argument, a later
/// parameter of the same name replacing an earlier one.
pub open spec fn parameters(params: Seq<Token>, args: Seq<Object>, n: nat) -> Map<Seq<char>, Object>
    decreases n,
{
    if n == 0 {
        Map::empty()
    } else {
        parameters(params, args, (n - 1) as nat).insert(params[n - 1].lexeme@, args[n - 1])
    }
}

/// The closures of the first `n` methods of a class declaration, all over
/// the scope `closure`; the one named `init` is the initializer.
pub open spec fn method_closures<'a>(methods: &'a Vec<FunctionStmt>, closure: EnvRef, n: nat) -> Seq<
    Function<'a>,
> {
    Seq::new(
        n,
        |i: int|
            Function {
                decl: &methods@[i],
                closure,
                is_initializer: methods@[i].identifier@ == "init"@,
            },
    )
}

/// The method table of a class whose first `n` methods were stored, in
/// order, from handle `base` on; a later method of the same name replaces an
/// earlier one.
pub open spec fn method_table(methods: Seq<FunctionStmt>, base: nat, n: nat) -> Map<
    Seq<char>,
    usize,
>
    decreases n,
{
    if n == 0 {
        Map::empty()
    } else {
        method_table(methods, base, (n - 1) as nat).insert(
            methods[n - 1].identifier@,
            (base + n - 1) as usize,
        )
    }
}

/// The text that `print` writes for a value that is not a number or a text.
pub open spec fn description(heap: HeapView, value: Object) -> Result<Seq<char>, RuntimeError> {
    match value {
        Object::Boolean(b) => Ok(
            if b {
                "true"@
            } else {
                "false"@
            },
        ),
        Object::Null => Ok("null"@),
        Object::Callable(Callable::Function(f)) => if f < heap.functions.len() {
            Ok("<callable:"@ + decimal_text(heap.functions[f as int].spec_arity()) + ">"@)
        } else {
            Err(RuntimeError::Inconsistent)
        },
        Object::Callable(Callable::Builtin(b)) => Ok(
            "<callable:"@ + decimal_text(b.spec_arity()) + ">"@,
        ),
        Object::Class(c) => if c < heap.classes.len() {
            Ok("<class:"@ + heap.classes[c as int].name + ">"@)
        } else {
            Err(RuntimeError::Inconsistent)
        },
        Object::ClassInstance(i) => if i < heap.instances.len() && heap.instances[i as int].class
            < heap.classes.len() {
            Ok("<instance:"@ + heap.classes[heap.instances[i as int].class as int].name + ">"@)
        } else {
            Err(RuntimeError::Inconsistent)
        },
        _ => Err(RuntimeError::Inconsistent),
    }
}

/// What `print` hands to the host for a value, and the stores afterwards.
/// A text goes out as it is stored and a number as it is; for every other
/// value its description is stored first.
pub open spec fn rendered<'a>(heap: HeapView<'a>, value: Object) -> (
    HeapView<'a>,
    Result<Output, RuntimeError>,
) {
    match value {
        Object::String(id) => if id < heap.strings.len() {
            (heap, Ok(Output::Text(id)))
        } else {
            (heap, Err(RuntimeError::Inconsistent))
        },
        Object::Number(n) => (heap, Ok(Output::Number(n))),
        _ => match description(heap, value) {
            Ok(text) => (heap.with_text(text), Ok(Output::Text(heap.strings.len() as usize))),
            Err(e) => (heap, Err(e)),
        },
    }
}

/// The lowest `n` operands, or all of them if there are fewer.
pub open spec fn cut(operands: Seq<Object>, n: nat) -> Seq<Object> {
    if n <= operands.len() {
        operands.take(n as int)
    } else {
        operands
    }
}

/// The global names that the first `n` entries of the table of native
/// functions define.
pub open spec fn native_names(table: Seq<(&'static str, Object)>, n: nat) -> Map<Seq<char>, Object>
    decreases n,
{
    if n == 0 {
        Map::empty()
    } else {
        native_names(table, (n - 1) as nat).insert(table[n - 1].0@, table[n - 1].1)
    }
}

/// The global scope before any program has run: it defines `clock`.
pub open spec fn global_scope() -> Scope {
    Scope {
        parent: None,
        values: Map::<Seq<char>, Object>::empty().insert(
            "clock"@,
            Object::Callable(Callable::Builtin(Builtin::Clock)),
        ),
    }
}

impl<'a> Machine<'a> {
    /// The state of a new interpreter: nothing but the global scope, and
    /// nothing to run.
    pub open spec fn initial() -> Machine<'a> {
        Machine {
            heap: HeapView {
                scopes: seq![global_scope()],
                functions: Seq::empty(),
                classes: Seq::empty(),
                instances: Seq::empty(),
                strings: Seq::empty(),
            },
            locals: Map::empty(),
            environment: 0,
            globals: 0,
            frames: Seq::empty(),
            operands: Seq::empty(),
            control: Control::Finished(Object::Null),
        }
    }

    /// The scopes in the frames exist.
    pub open spec fn frames_wf(self) -> bool {
        forall|i: int|
            0 <= i < self.frames.len() ==> match #[trigger] self.frames[i] {
                Frame::Block { saved, .. } => saved < self.heap.scopes.len(),
                Frame::Call { caller, .. } => caller < self.heap.scopes.len(),
                _ => true,
            }
    }

    /// Whether the state is well formed: the stores are, and the scopes that
    /// the state names exist.
    pub open spec fn wf(self) -> bool {
        &&& self.heap.wf()
        &&& self.environment < self.heap.scopes.len()
        &&& self.globals < self.heap.scopes.len()
        &&& self.frames_wf()
        &&& (self.control matches Control::Emit(Output::Text(id)) ==> id < self.heap.strings.len())
    }

    /// What the host has to do in this state.
    pub open spec fn action(self) -> Action<'a> {
        match self.control {
            Control::Await { request, .. } => Action::Ask(request),
            Control::Emit(output) => Action::Print(output),
            Control::Finished(value) => Action::Finished(value),
            Control::Faulted(e) => Action::Fault(e),
            _ => Action::Continue,
        }
    }

    /// The state with `control` to do next.
    pub open spec fn goto(self, control: Control<'a>) -> Machine<'a> {
        Machine { control, ..self }
    }

    /// The state in which `value` is handed to the innermost frame next.
    pub open spec fn deliver(self, value: Object) -> Machine<'a> {
        self.goto(Control::Deliver(value))
    }

    /// The state in which the run has failed with `e`.
    pub open spec fn fault(self, e: RuntimeError) -> Machine<'a> {
        self.goto(Control::Faulted(e))
    }

    /// The state with one more frame.
    pub open spec fn push(self, frame: Frame<'a>) -> Machine<'a> {
        Machine { frames: self.frames.push(frame), ..self }
    }

    /// The state after the resolver recorded the scope distance of an
    /// expression.
    pub open spec fn annotate(self, id: u64, depth: usize) -> Machine<'a> {
        Machine { locals: self.locals.insert(id, depth), ..self }
    }

    /// The state with `locals` in place of the resolver's annotations.
    pub open spec fn with_locals(self, locals: Map<u64, usize>) -> Machine<'a> {
        Machine { locals, ..self }
    }

    /// The state with `heap` in place of the stores.
    pub open spec fn with_heap(self, heap: HeapView<'a>) -> Machine<'a> {
        Machine { heap, ..self }
    }

    /// The state with `scopes` in place of the scopes.
    pub open spec fn with_scopes(self, scopes: Seq<Scope>) -> Machine<'a> {
        Machine { heap: self.heap.with_scopes(scopes), ..self }
    }

    /// Acts on the outcome of an operator.
    pub open spec fn settle(self, outcome: Outcome<'a>) -> Machine<'a> {
        match outcome {
            Outcome::Value(v) => self.deliver(v),
            Outcome::Ask { request, negate } => self.goto(Control::Await { request, negate }),
            Outcome::Fault(e) => self.fault(e),
        }
    }

    /// Reads a variable, `this` included: at the distance the resolver found
    /// for the expression, or else by name in the global scope.
    pub open spec fn lookup_var(self, id: u64, name: Seq<char>) -> Machine<'a> {
        if self.locals.contains_key(id) {
            match lookup_at(self.heap.scopes, self.environment as int, self.locals[id] as nat, name) {
                Some(v) => self.deliver(v),
                None => self.fault(RuntimeError::Inconsistent),
            }
        } else {
            match lookup(self.heap.scopes, self.globals as int, name) {
                Some(v) => self.deliver(v),
                None => self.fault(RuntimeError::UndefinedVariable),
            }
        }
    }

    /// Evaluates `super.method`: the method is searched from the class that
    /// the enclosing class declaration names as its superclass, whatever the
    /// class of the instance, and comes bound to the instance.
    pub open spec fn lookup_super(self, id: u64, method: Seq<char>) -> Machine<'a> {
        if !self.locals.contains_key(id) || self.locals[id] == 0 {
            self.fault(RuntimeError::Inconsistent)
        } else {
            let distance = self.locals[id] as nat;
            let scopes = self.heap.scopes;
            let env = self.environment as int;
            match (
                lookup_at(scopes, env, distance, "super"@),
                lookup_at(scopes, env, (distance - 1) as nat, "this"@),
            ) {
                (Some(Object::Class(c)), Some(Object::ClassInstance(i))) => if c
                    >= self.heap.classes.len() {
                    self.fault(RuntimeError::Inconsistent)
                } else {
                    match find_method(self.heap.classes, c as int, method) {
                        Some(f) => if f < self.heap.functions.len() {
                            self.with_heap(bound(self.heap, f as int, i)).deliver(
                                Object::Callable(
                                    Callable::Function(self.heap.functions.len() as usize),
                                ),
                            )
                        } else {
                            self.fault(RuntimeError::Inconsistent)
                        },
                        None => self.fault(RuntimeError::UndefinedProperty),
                    }
                },
                _ => self.fault(RuntimeError::Inconsistent),
            }
        }
    }

    /// Starts the evaluation of an expression.
    pub open spec fn evaluate(self, expr: &'a Expr) -> Machine<'a> {
        match &expr.kind {
            ExprKind::Literal { value } => {
                let (heap, outcome) = literal(self.heap, value);
                self.with_heap(heap).settle(outcome)
            },
            ExprKind::Grouping { expr: inner } => self.goto(Control::Evaluate(&**inner)),
            ExprKind::Unary { op, right } => if op.typ == TokenType::Minus {
                self.push(Frame::Operand { op: op.typ }).goto(Control::Evaluate(&**right))
            } else {
                self.fault(RuntimeError::UnsupportedOperator)
            },
            ExprKind::Binary { left, op, right } => self.push(
                Frame::Left { op: op.typ, right: &**right },
            ).goto(Control::Evaluate(&**left)),
            ExprKind::Logical { left, op, right } => self.push(
                Frame::Logical { op: op.typ, right: &**right },
            ).goto(Control::Evaluate(&**left)),
            ExprKind::Var { name } => self.lookup_var(expr.id, name@),
            ExprKind::This { token } => self.lookup_var(expr.id, token@),
            ExprKind::Assign { name, expr: value } => self.push(
                Frame::Assign { id: expr.id, name },
            ).goto(Control::Evaluate(&**value)),
            ExprKind::Call { callee, args, .. } => self.push(Frame::Callee { args }).goto(
                Control::Evaluate(&**callee),
            ),
            ExprKind::Get { name, object } => self.push(Frame::GetObject { name }).goto(
                Control::Evaluate(&**object),
            ),
            ExprKind::Put { object, name, value } => self.push(
                Frame::PutObject { name, value: &**value },
            ).goto(Control::Evaluate(&**object)),
            ExprKind::Super { method, .. } => self.lookup_super(expr.id, method@),
        }
    }

    /// Enters a block: its declarations run in `env`, and the scope in force
    /// now is restored when the block is left, however it is left.
    pub open spec fn enter_block(self, decls: &'a Vec<Declaration>, env: EnvRef) -> Machine<'a> {
        Machine {
            frames: self.frames.push(Frame::Block { decls, next: 0, saved: self.environment }),
            environment: env,
            control: Control::Deliver(Object::Null),
            ..self
        }
    }

    /// Declares a class whose superclass, if it names one, has been
    /// evaluated.
    pub open spec fn declare_class(self, decl: &'a ClassDecl, superclass: Option<usize>) -> Machine<
        'a,
    > {
        let env = self.environment as int;
        let named = bind(self.heap.scopes, env, decl.name@, Object::Null);
        let (scopes, closure) = match superclass {
            Some(c) => (
                named.push(
                    Scope {
                        parent: Some(self.environment),
                        values: Map::<Seq<char>, Object>::empty().insert(
                            "super"@,
                            Object::Class(c),
                        ),
                    },
                ),
                named.len() as usize,
            ),
            None => (named, self.environment),
        };
        let count = decl.methods@.len();
        let class = ClassView {
            name: decl.name@,
            methods: method_table(decl.methods@, self.heap.functions.len(), count),
            superclass,
        };
        let heap = HeapView {
            scopes: bind(scopes, env, decl.name@, Object::Class(self.heap.classes.len() as usize)),
            functions: self.heap.functions + method_closures(&decl.methods, closure, count),
            classes: self.heap.classes.push(class),
            ..self.heap
        };
        self.with_heap(heap).deliver(Object::Null)
    }

    /// Starts the execution of a statement. A `return` without a value
    /// sets out for the enclosing call at once, with `Null`.
    pub open spec fn execute(self, stmt: &'a Stmt) -> Machine<'a> {
        match stmt {
            Stmt::Expr(expr) => self.goto(Control::Evaluate(expr)),
            Stmt::Print(expr) => self.push(Frame::Print).goto(Control::Evaluate(expr)),
            Stmt::If { condition, then_branch, else_branch } => self.push(
                Frame::Condition { then_branch: &**then_branch, else_branch },
            ).goto(Control::Evaluate(condition)),
            Stmt::While { condition, body } => self.push(
                Frame::LoopCondition { condition, body: &**body },
            ).goto(Control::Evaluate(condition)),
            Stmt::Block(decls) => self.with_scopes(
                self.heap.scopes.push(
                    Scope { parent: Some(self.environment), values: Map::empty() },
                ),
            ).enter_block(decls, self.heap.scopes.len() as usize),
            Stmt::FunctionDecl(decl) => {
                let function = Function {
                    decl,
                    closure: self.environment,
                    is_initializer: false,
                };
                let heap = self.heap.with_function(function);
                self.with_heap(
                    heap.with_scopes(
                        bind(
                            heap.scopes,
                            self.environment as int,
                            decl.identifier@,
                            Object::Callable(
                                Callable::Function(self.heap.functions.len() as usize),
                            ),
                        ),
                    ),
                ).deliver(Object::Null)
            },
            Stmt::Return { value } => match value {
                Some(expr) => self.push(Frame::Return).goto(Control::Evaluate(expr)),
                None => self.goto(Control::Unwind(Object::Null)),
            },
            Stmt::ClassDecl(decl) => match &decl.superclass {
                Some(expr) => self.push(Frame::Superclass { decl }).goto(Control::Evaluate(expr)),
                None => self.declare_class(decl, None),
            },
        }
    }

    /// Starts the execution of a declaration.
    pub open spec fn declare(self, decl: &'a Declaration) -> Machine<'a> {
        match decl {
            Declaration::Var { identifier, expression } => self.push(
                Frame::Define { name: identifier },
            ).goto(Control::Evaluate(expression)),
            Declaration::Statement(stmt) => self.execute(stmt),
        }
    }

    /// Starts the body of closure `function` on `args`, whose number is the
    /// closure's arity.
    pub open spec fn call_function(self, function: usize, args: Seq<Object>) -> Machine<'a> {
        let f = self.heap.functions[function as int];
        let scope = Scope {
            parent: Some(f.closure),
            values: parameters(f.decl.parameters@, args, args.len()),
        };
        Machine {
            heap: self.heap.with_scopes(self.heap.scopes.push(scope)),
            frames: self.frames.push(
                Frame::Call { function, caller: self.environment, base: self.operands.len() as usize },
            ),
            ..self
        }.enter_block(&f.decl.body, self.heap.scopes.len() as usize)
    }

    /// Makes an instance of `class` and starts its initializer, if the class
    /// has or inherits one, on `args`.
    pub open spec fn construct(self, class: usize, args: Seq<Object>) -> Machine<'a> {
        let instance = self.heap.instances.len() as usize;
        let made = with_instance(self.heap, class);
        match find_method(made.classes, class as int, "init"@) {
            Some(f) => if f < made.functions.len() {
                Machine {
                    heap: bound(made, f as int, instance),
                    frames: self.frames.push(Frame::Construct { instance }),
                    ..self
                }.call_function(made.functions.len() as usize, args)
            } else {
                self.with_heap(made).fault(RuntimeError::Inconsistent)
            },
            None => self.with_heap(made).deliver(Object::ClassInstance(instance)),
        }
    }

    /// Calls the callee that lies under the topmost `count` operands, with
    /// those operands as arguments.
    pub open spec fn invoke(self, count: nat) -> Machine<'a> {
        if self.operands.len() < count + 1 {
            self.fault(RuntimeError::Inconsistent)
        } else {
            let base = self.operands.len() - count - 1;
            let callee = self.operands[base];
            let args = self.operands.subrange(base + 1, self.operands.len() as int);
            let m = Machine { operands: self.operands.take(base), ..self };
            match callee {
                Object::Callable(Callable::Function(f)) => if f >= m.heap.functions.len() {
                    m.fault(RuntimeError::Inconsistent)
                } else if m.heap.functions[f as int].spec_arity() != count {
                    m.fault(RuntimeError::ArityMismatch)
                } else {
                    m.call_function(f, args)
                },
                Object::Callable(Callable::Builtin(b)) => if b.spec_arity() != count {
                    m.fault(RuntimeError::ArityMismatch)
                } else {
                    match b {
                        Builtin::Clock => m.goto(
                            Control::Await { request: Request::Clock, negate: false },
                        ),
                    }
                },
                Object::Class(c) => if c >= m.heap.classes.len() {
                    m.fault(RuntimeError::Inconsistent)
                } else if constructor_arity(m.heap, c as int) != count {
                    m.fault(RuntimeError::ArityMismatch)
                } else {
                    m.construct(c, args)
                },
                _ => m.fault(RuntimeError::NotCallable),
            }
        }
    }

    /// Assigns to a variable: at the distance the resolver found for the
    /// assignment, or else to the global of that name, which must exist.
    pub open spec fn assign(self, id: u64, name: Seq<char>, value: Object) -> Machine<'a> {
        let scopes = self.heap.scopes;
        if self.locals.contains_key(id) {
            let distance = self.locals[id] as nat;
            if ancestor(scopes, self.environment as int, distance) is Some {
                self.with_scopes(
                    bind_at(scopes, self.environment as int, distance, name, value),
                ).deliver(value)
            } else {
                self.fault(RuntimeError::Inconsistent)
            }
        } else {
            if lookup(scopes, self.globals as int, name) is Some {
                self.with_scopes(rebind(scopes, self.globals as int, name, value)).deliver(value)
            } else {
                self.fault(RuntimeError::UndefinedVariable)
            }
        }
    }

    /// Hands `value` to `frame`, which has been taken off the stack.
    pub open spec fn apply(self, frame: Frame<'a>, value: Object) -> Machine<'a> {
        match frame {
            Frame::Operand { op } => self.settle(unary(op, value)),
            Frame::Left { op, right } => self.push(Frame::Right { op, left: value }).goto(
                Control::Evaluate(right),
            ),
            Frame::Right { op, left } => {
                let (heap, outcome) = binary(self.heap, left, op, value);
                self.with_heap(heap).settle(outcome)
            },
            Frame::Logical { op, right } => match logical(op, value) {
                Ok(decided) => if decided {
                    self.deliver(value)
                } else {
                    self.goto(Control::Evaluate(right))
                },
                Err(e) => self.fault(e),
            },
            Frame::Assign { id, name } => self.assign(id, name@, value),
            Frame::Callee { args } => {
                let m = Machine { operands: self.operands.push(value), ..self };
                if args@.len() == 0 {
                    m.invoke(0)
                } else {
                    m.push(Frame::Argument { args, index: 0 }).goto(Control::Evaluate(&args@[0]))
                }
            },
            Frame::Argument { args, index } => {
                let m = Machine { operands: self.operands.push(value), ..self };
                if index + 1 < args@.len() {
                    m.push(Frame::Argument { args, index: (index + 1) as usize }).goto(
                        Control::Evaluate(&args@[index + 1]),
                    )
                } else {
                    m.invoke(args@.len())
                }
            },
            Frame::GetObject { name } => match value {
                Object::ClassInstance(i) => if i < self.heap.instances.len() {
                    let (heap, read) = property(self.heap, i as int, name@);
                    match read {
                        Ok(v) => self.with_heap(heap).deliver(v),
                        Err(e) => self.with_heap(heap).fault(e),
                    }
                } else {
                    self.fault(RuntimeError::Inconsistent)
                },
                _ => self.fault(RuntimeError::NotAnInstance),
            },
            Frame::PutObject { name, value: source } => match value {
                Object::ClassInstance(i) => self.push(Frame::PutValue { name, instance: i }).goto(
                    Control::Evaluate(source),
                ),
                _ => self.fault(RuntimeError::NotAnInstance),
            },
            Frame::PutValue { name, instance } => if instance < self.heap.instances.len() {
                self.with_heap(with_field(self.heap, instance as int, name@, value)).deliver(value)
            } else {
                self.fault(RuntimeError::Inconsistent)
            },
            Frame::Print => {
                let (heap, output) = rendered(self.heap, value);
                match output {
                    Ok(o) => self.with_heap(heap).goto(Control::Emit(o)),
                    Err(e) => self.with_heap(heap).fault(e),
                }
            },
            Frame::Condition { then_branch, else_branch } => match value {
                Object::Boolean(true) => self.goto(Control::Execute(then_branch)),
                Object::Boolean(false) => match else_branch {
                    Some(stmt) => self.goto(Control::Execute(&**stmt)),
                    None => self.deliver(Object::Null),
                },
                _ => self.fault(RuntimeError::NonBoolean),
            },
            Frame::LoopCondition { condition, body } => match value {
                Object::Boolean(true) => self.push(Frame::LoopBody { condition, body }).goto(
                    Control::Execute(body),
                ),
                Object::Boolean(false) => self.deliver(Object::Null),
                _ => self.fault(RuntimeError::NonBoolean),
            },
            Frame::LoopBody { condition, body } => self.push(
                Frame::LoopCondition { condition, body },
            ).goto(Control::Evaluate(condition)),
            Frame::Block { decls, next, saved } => if next < decls@.len() {
                self.push(Frame::Block { decls, next: (next + 1) as usize, saved }).goto(
                    Control::Declare(&decls@[next as int]),
                )
            } else {
                Machine { environment: saved, ..self }.deliver(value)
            },
            Frame::Define { name } => self.with_scopes(
                bind(self.heap.scopes, self.environment as int, name@, value),
            ).deliver(Object::Null),
            Frame::Return => self.goto(Control::Unwind(value)),
            Frame::Superclass { decl } => match value {
                Object::Class(c) => if c < self.heap.classes.len() {
                    self.declare_class(decl, Some(c))
                } else {
                    self.fault(RuntimeError::Inconsistent)
                },
                _ => self.fault(RuntimeError::SuperclassNotClass),
            },
            Frame::Call { function, caller, base } => {
                let m = Machine {
                    environment: caller,
                    operands: cut(self.operands, base as nat),
                    ..self
                };
                if function < self.heap.functions.len()
                    && !self.heap.functions[function as int].is_initializer {
                    m.deliver(value)
                } else if function < self.heap.functions.len() {
                    match lookup_at(
                        self.heap.scopes,
                        self.heap.functions[function as int].closure as int,
                        0,
                        "this"@,
                    ) {
                        Some(this) => m.deliver(this),
                        None => m.fault(RuntimeError::Inconsistent),
                    }
                } else {
                    m.fault(RuntimeError::Inconsistent)
                }
            },
            Frame::Construct { instance } => self.deliver(Object::ClassInstance(instance)),
            Frame::Program { decls, next } => if next < decls@.len() {
                self.push(Frame::Program { decls, next: (next + 1) as usize }).goto(
                    Control::Declare(&decls@[next as int]),
                )
            } else {
                self.goto(Control::Finished(value))
            },
        }
    }

    /// Hands `value` to the innermost frame. Without a frame left, the run is
    /// over.
    pub open spec fn resume(self, value: Object) -> Machine<'a> {
        if self.frames.len() == 0 {
            self.goto(Control::Finished(value))
        } else {
            Machine { frames: self.frames.drop_last(), ..self }.apply(self.frames.last(), value)
        }
    }

    /// Carries the value of a `return` one frame outwards.
    ///
    /// The frame of a call ends the journey: the caller's scope is back in
    /// force and the value is the call's result. The frame of a block is left
    /// with its scope restored. Any other frame is dropped, so nothing that
    /// it stood for is run. At top level there is no call to return from and
    /// the program goes on with its next declaration.
    pub open spec fn unwind(self, value: Object) -> Machine<'a> {
        if self.frames.len() == 0 {
            self.goto(Control::Finished(value))
        } else {
            let m = Machine { frames: self.frames.drop_last(), ..self };
            match self.frames.last() {
                Frame::Call { caller, base, .. } => Machine {
                    environment: caller,
                    operands: cut(self.operands, base as nat),
                    ..m
                }.deliver(value),
                Frame::Block { saved, .. } => Machine { environment: saved, ..m },
                Frame::Program { .. } => self.deliver(value),
                _ => m,
            }
        }
    }

    /// The state in which `program` is about to run.
    pub open spec fn load(self, program: &'a Program) -> Machine<'a> {
        match program {
            Program::Declarations(decls) => Machine {
                frames: seq![Frame::Program { decls, next: 0 }],
                operands: Seq::empty(),
                environment: self.globals,
                control: Control::Deliver(Object::Null),
                ..self
            },
        }
    }

    /// Takes the host's answer to a request.
    pub open spec fn answer(self, request: Request<'a>, negate: bool, event: Event) -> Machine<'a> {
        match event {
            Event::Number(n) => if request.wants_truth() {
                self.fault(RuntimeError::UnexpectedEvent)
            } else {
                self.deliver(Object::Number(n))
            },
            Event::Boolean(b) => if request.wants_truth() {
                self.deliver(Object::Boolean(b != negate))
            } else {
                self.fault(RuntimeError::UnexpectedEvent)
            },
            Event::Resume => self.fault(RuntimeError::UnexpectedEvent),
        }
    }

    /// One transition of the evaluator. `event` matters only in a state that
    /// waits for an answer. A finished or failed state stays as it is.
    pub open spec fn step(self, event: Event) -> Machine<'a> {
        match self.control {
            Control::Evaluate(expr) => self.evaluate(expr),
            Control::Execute(stmt) => self.execute(stmt),
            Control::Declare(decl) => self.declare(decl),
            Control::Deliver(value) => self.resume(value),
            Control::Unwind(value) => self.unwind(value),
            Control::Await { request, negate } => self.answer(request, negate, event),
            Control::Emit(_) => self.deliver(Object::Null),
            Control::Finished(_) => self,
            Control::Faulted(_) => self,
        }
    }

    /// The state after the step that takes `event` and up to `budget` further
    /// steps, stopping early as soon as the host has something to do.
    pub open spec fn run(self, event: Event, budget: nat) -> Machine<'a>
        decreases budget,
    {
        let next = self.step(event);
        if budget == 0 || !(next.action() is Continue) {
            next
        } else {
            next.run(Event::Resume, (budget - 1) as nat)
        }
    }
}

} // verus!
