//! The static pass that runs before a program does.
//!
//! It walks the program once, keeps the stack of scopes that are open at
//! each point, and records for every expression that refers to a local
//! variable how many scopes out that variable was declared. It rejects the
//! programs that break one of the static rules of the language.

use vstd::prelude::*;
use vstd::hash_map::StringHashMap;
use vstd::string::StringExecFns;
use crate::annotations::{decls_annotated, fresh, theorem_annotations_are_distances};
use crate::interpreter::Interpreter;
use crate::syntax::{decls_ids, unique_decls};
use crate::machine::Machine;
use crate::scanner::Token;
use crate::syntax::{ClassDecl, Declaration, Expr, ExprKind, FunctionStmt, Program, Stmt};
use crate::types::Identifier;

verus! {

/// The kind of function whose body is being resolved.
#[derive(Clone, Copy, PartialEq, Eq, Structural, Debug)]
pub enum FunctionType {
    /// Outside of every function.
    NoFunction,
    Function,
    Initializer,
    Method,
}

/// The kind of class whose body is being resolved.
#[derive(Clone, Copy, PartialEq, Eq, Structural, Debug)]
pub enum ClassType {
    /// Outside of every class.
    NoClass,
    Class,
    SubClass,
}

/// The static rules that a program can break.
#[derive(Clone, Copy, PartialEq, Eq, Structural, Debug)]
pub enum ResolveError {
    /// A name is declared twice in the same local scope.
    AlreadyDeclared,
    /// `return` outside of any function.
    ReturnOutsideFunction,
    /// `return` with a value inside an initializer.
    ReturnFromInitializer,
    /// `this` outside of any class.
    ThisOutsideClass,
    /// `super` outside of any class.
    SuperOutsideClass,
    /// `super` in a class that has no superclass.
    SuperWithoutSuperclass,
    /// A class names itself as its superclass.
    InheritsFromItself,
    /// The initializer of a local variable reads that variable.
    ReadInOwnInitializer,
    /// The superclass clause of a class is not a name.
    SuperclassNotAName,
}

/// One open scope: the names declared in it, each with whether its
/// initializer has been resolved yet.
pub type Names = Map<Seq<char>, bool>;

/// What the pass knows at a point of the program.
pub struct Static {
    /// Scope distances recorded so far, by expression id.
    pub locals: Map<u64, usize>,
    /// The open local scopes, innermost last. The global scope is not one
    /// of them.
    pub scopes: Seq<Names>,
    pub function: FunctionType,
    pub class: ClassType,
}

/// How many scopes out from the innermost one `name` is declared, if any
/// open scope declares it.
pub open spec fn depth_of(scopes: Seq<Names>, name: Seq<char>) -> Option<nat>
    decreases scopes.len(),
{
    if scopes.len() == 0 {
        None
    } else if scopes.last().contains_key(name) {
        Some(0)
    } else {
        match depth_of(scopes.drop_last(), name) {
            Some(d) => Some(d + 1),
            None => None,
        }
    }
}

impl Static {
    /// Opens a scope.
    pub open spec fn begin_scope(self) -> Static {
        Static { scopes: self.scopes.push(Map::empty()), ..self }
    }

    /// Opens a scope that declares `name`, ready for use.
    pub open spec fn begin_scope_with(self, name: Seq<char>) -> Static {
        Static { scopes: self.scopes.push(Map::<Seq<char>, bool>::empty().insert(name, true)), ..self }
    }

    /// Closes the innermost scope.
    pub open spec fn end_scope(self) -> Static {
        if self.scopes.len() == 0 {
            self
        } else {
            Static { scopes: self.scopes.drop_last(), ..self }
        }
    }

    /// Declares `name` in the innermost scope, not yet ready for use. At
    /// global level, where no scope is open, nothing is recorded and nothing
    /// is refused.
    pub open spec fn declare(self, name: Seq<char>) -> Result<Static, ResolveError> {
        if self.scopes.len() == 0 {
            Ok(self)
        } else if self.scopes.last().contains_key(name) {
            Err(ResolveError::AlreadyDeclared)
        } else {
            Ok(
                Static {
                    scopes: self.scopes.update(
                        self.scopes.len() - 1,
                        self.scopes.last().insert(name, false),
                    ),
                    ..self
                },
            )
        }
    }

    /// Marks `name` ready for use in the innermost scope.
    pub open spec fn define(self, name: Seq<char>) -> Static {
        if self.scopes.len() == 0 {
            self
        } else {
            Static {
                scopes: self.scopes.update(
                    self.scopes.len() - 1,
                    self.scopes.last().insert(name, true),
                ),
                ..self
            }
        }
    }

    /// Records for expression `id` the distance of the innermost open scope
    /// that declares `name`; records nothing if none does, which leaves the
    /// name to the global scope.
    pub open spec fn resolve_local(self, id: u64, name: Seq<char>) -> Static {
        match depth_of(self.scopes, name) {
            Some(d) => Static { locals: self.locals.insert(id, d as usize), ..self },
            None => self,
        }
    }

    /// Resolves a read of variable `name` by expression `id`.
    pub open spec fn resolve_variable(self, id: u64, name: Seq<char>) -> Result<
        Static,
        ResolveError,
    > {
        if self.scopes.len() > 0 && self.scopes.last().contains_key(name)
            && !self.scopes.last()[name] {
            Err(ResolveError::ReadInOwnInitializer)
        } else {
            Ok(self.resolve_local(id, name))
        }
    }

    /// Declares the first `n` parameters of a function, each ready for use.
    pub open spec fn declare_parameters(self, params: Seq<Token>, n: nat) -> Result<
        Static,
        ResolveError,
    >
        decreases n,
    {
        if n == 0 {
            Ok(self)
        } else {
            match self.declare_parameters(params, (n - 1) as nat) {
                Ok(s) => match s.declare(params[n - 1].lexeme@) {
                    Ok(t) => Ok(t.define(params[n - 1].lexeme@)),
                    Err(e) => Err(e),
                },
                Err(e) => Err(e),
            }
        }
    }

    /// What is done for a class declaration before its methods are
    /// resolved.
    pub open spec fn begin_class(self, decl: &ClassDecl) -> Result<Static, ResolveError> {
        match (Static { class: ClassType::Class, ..self }).declare(decl.name@) {
            Err(e) => Err(e),
            Ok(declared) => {
                let defined = declared.define(decl.name@);
                match &decl.superclass {
                    Some(expr) => match &expr.kind {
                        ExprKind::Var { name } => if name@ == decl.name@ {
                            Err(ResolveError::InheritsFromItself)
                        } else {
                            match (Static { class: ClassType::SubClass, ..defined }).resolve_variable(
                                expr.id,
                                name@,
                            ) {
                                Ok(s) => Ok(s.begin_scope_with("super"@).begin_scope_with("this"@)),
                                Err(e) => Err(e),
                            }
                        },
                        _ => Err(ResolveError::SuperclassNotAName),
                    },
                    None => Ok(defined.begin_scope_with("this"@)),
                }
            },
        }
    }

    /// What is done for a class declaration after its methods were
    /// resolved; `enclosing` is the kind of class around the declaration.
    pub open spec fn end_class(self, decl: &ClassDecl, enclosing: ClassType) -> Static {
        let closed = if decl.superclass is Some {
            self.end_scope().end_scope()
        } else {
            self.end_scope()
        };
        Static { class: enclosing, ..closed }
    }

    /// Resolves an expression: every reference in it to a variable, `this`
    /// or `super`, in the scopes open now.
    pub open spec fn resolve_expr(self, expr: &Expr) -> Result<Static, ResolveError>
        decreases expr,
    {
        match &expr.kind {
            ExprKind::Assign { name, expr: value } => match self.resolve_expr(value) {
                Ok(s) => Ok(s.resolve_local(expr.id, name@)),
                Err(e) => Err(e),
            },
            ExprKind::Binary { left, right, .. } => match self.resolve_expr(left) {
                Ok(s) => s.resolve_expr(right),
                Err(e) => Err(e),
            },
            ExprKind::Grouping { expr: inner } => self.resolve_expr(inner),
            ExprKind::Literal { .. } => Ok(self),
            ExprKind::Logical { left, right, .. } => match self.resolve_expr(left) {
                Ok(s) => s.resolve_expr(right),
                Err(e) => Err(e),
            },
            ExprKind::Unary { right, .. } => self.resolve_expr(right),
            ExprKind::Call { callee, args, .. } => match self.resolve_expr(callee) {
                Ok(s) => s.resolve_exprs(args@, 0),
                Err(e) => Err(e),
            },
            ExprKind::Var { name } => self.resolve_variable(expr.id, name@),
            ExprKind::Get { object, .. } => self.resolve_expr(object),
            ExprKind::Put { object, value, .. } => match self.resolve_expr(value) {
                Ok(s) => s.resolve_expr(object),
                Err(e) => Err(e),
            },
            ExprKind::This { token } => if self.class == ClassType::NoClass {
                Err(ResolveError::ThisOutsideClass)
            } else {
                Ok(self.resolve_local(expr.id, token@))
            },
            ExprKind::Super { token, .. } => if self.class == ClassType::NoClass {
                Err(ResolveError::SuperOutsideClass)
            } else if self.class != ClassType::SubClass {
                Err(ResolveError::SuperWithoutSuperclass)
            } else {
                Ok(self.resolve_local(expr.id, token@))
            },
        }
    }

    /// Resolves the expressions of `exprs` from index `from` on, in order.
    pub open spec fn resolve_exprs(self, exprs: Seq<Expr>, from: int) -> Result<Static, ResolveError>
        decreases exprs, exprs.len() - from,
    {
        if 0 <= from < exprs.len() {
            match self.resolve_expr(&exprs[from]) {
                Ok(s) => s.resolve_exprs(exprs, from + 1),
                Err(e) => Err(e),
            }
        } else {
            Ok(self)
        }
    }

    /// Resolves a statement. A `return` is refused outside of any function,
    /// and inside an initializer if it carries a value; a `return` without
    /// a value has nothing to resolve.
    pub open spec fn resolve_stmt(self, stmt: &Stmt) -> Result<Static, ResolveError>
        decreases stmt,
    {
        match stmt {
            Stmt::Expr(expr) => self.resolve_expr(expr),
            Stmt::Print(expr) => self.resolve_expr(expr),
            Stmt::FunctionDecl(decl) => match self.declare(decl.identifier@) {
                Ok(s) => s.define(decl.identifier@).resolve_function(decl, FunctionType::Function),
                Err(e) => Err(e),
            },
            Stmt::If { condition, then_branch, else_branch } => match self.resolve_expr(condition) {
                Ok(s) => match s.resolve_stmt(then_branch) {
                    Ok(t) => match else_branch {
                        Some(stmt) => t.resolve_stmt(stmt),
                        None => Ok(t),
                    },
                    Err(e) => Err(e),
                },
                Err(e) => Err(e),
            },
            Stmt::Return { value } => if self.function == FunctionType::NoFunction {
                Err(ResolveError::ReturnOutsideFunction)
            } else {
                match value {
                    Some(expr) => if self.function == FunctionType::Initializer {
                        Err(ResolveError::ReturnFromInitializer)
                    } else {
                        self.resolve_expr(expr)
                    },
                    None => Ok(self),
                }
            },
            Stmt::While { condition, body } => match self.resolve_expr(condition) {
                Ok(s) => s.resolve_stmt(body),
                Err(e) => Err(e),
            },
            Stmt::Block(decls) => match self.begin_scope().resolve_decls(decls@, 0) {
                Ok(s) => Ok(s.end_scope()),
                Err(e) => Err(e),
            },
            Stmt::ClassDecl(decl) => match self.begin_class(decl) {
                Ok(s) => match s.resolve_methods(decl.methods@, 0) {
                    Ok(t) => Ok(t.end_class(decl, self.class)),
                    Err(e) => Err(e),
                },
                Err(e) => Err(e),
            },
        }
    }

    /// Resolves a declaration. A variable is declared before its initializer
    /// is resolved and ready for use after.
    pub open spec fn resolve_decl(self, decl: &Declaration) -> Result<Static, ResolveError>
        decreases decl,
    {
        match decl {
            Declaration::Var { identifier, expression } => match self.declare(identifier@) {
                Ok(s) => match s.resolve_expr(expression) {
                    Ok(t) => Ok(t.define(identifier@)),
                    Err(e) => Err(e),
                },
                Err(e) => Err(e),
            },
            Declaration::Statement(stmt) => self.resolve_stmt(stmt),
        }
    }

    /// Resolves the declarations of `decls` from index `from` on, in order.
    pub open spec fn resolve_decls(self, decls: Seq<Declaration>, from: int) -> Result<
        Static,
        ResolveError,
    >
        decreases decls, decls.len() - from,
    {
        if 0 <= from < decls.len() {
            match self.resolve_decl(&decls[from]) {
                Ok(s) => s.resolve_decls(decls, from + 1),
                Err(e) => Err(e),
            }
        } else {
            Ok(self)
        }
    }

    /// Resolves a function: parameters and body share one new scope.
    pub open spec fn resolve_function(self, decl: &FunctionStmt, kind: FunctionType) -> Result<
        Static,
        ResolveError,
    >
        decreases decl,
    {
        let inside = Static { function: kind, ..self }.begin_scope();
        match inside.declare_parameters(decl.parameters@, decl.parameters@.len()) {
            Ok(s) => match s.resolve_decls(decl.body@, 0) {
                Ok(t) => Ok(Static { function: self.function, ..t.end_scope() }),
                Err(e) => Err(e),
            },
            Err(e) => Err(e),
        }
    }

    /// Resolves the methods of a class from index `from` on; the one named
    /// `init` is resolved as an initializer.
    pub open spec fn resolve_methods(self, methods: Seq<FunctionStmt>, from: int) -> Result<
        Static,
        ResolveError,
    >
        decreases methods, methods.len() - from,
    {
        if 0 <= from < methods.len() {
            let kind = if methods[from].identifier@ == "init"@ {
                FunctionType::Initializer
            } else {
                FunctionType::Method
            };
            match self.resolve_function(&methods[from], kind) {
                Ok(s) => s.resolve_methods(methods, from + 1),
                Err(e) => Err(e),
            }
        } else {
            Ok(self)
        }
    }

    /// The state at the start of a program.
    pub open spec fn start(locals: Map<u64, usize>) -> Static {
        Static {
            locals,
            scopes: Seq::empty(),
            function: FunctionType::NoFunction,
            class: ClassType::NoClass,
        }
    }
}


/// The scopes of the resolver as mathematical maps.
pub open spec fn names_of(scopes: Seq<StringHashMap<bool>>) -> Seq<Names> {
    Seq::new(scopes.len(), |i: int| scopes[i]@)
}

/// Whether two states of the evaluator differ at most in the resolver's
/// annotations.
pub open spec fn same_machine(a: Machine, b: Machine) -> bool {
    a.with_locals(Map::empty()) == b.with_locals(Map::empty())
}

proof fn lemma_depth_found(scopes: Seq<Names>, name: Seq<char>, i: int)
    requires
        0 <= i < scopes.len(),
        scopes[i].contains_key(name),
        forall|j: int| i < j < scopes.len() ==> !scopes[j].contains_key(name),
    ensures
        depth_of(scopes, name) == Some((scopes.len() - 1 - i) as nat),
    decreases scopes.len(),
{
    if i < scopes.len() - 1 {
        lemma_depth_found(scopes.drop_last(), name, i);
    }
}

proof fn lemma_depth_absent(scopes: Seq<Names>, name: Seq<char>)
    requires
        forall|j: int| 0 <= j < scopes.len() ==> !scopes[j].contains_key(name),
    ensures
        depth_of(scopes, name) is None,
    decreases scopes.len(),
{
    if scopes.len() > 0 {
        lemma_depth_absent(scopes.drop_last(), name);
    }
}

/// The static pass in executable form.
pub struct Resolver<'a> {
    pub interpreter: Interpreter<'a>,
    pub scopes: Vec<StringHashMap<bool>>,
    pub current_function: FunctionType,
    pub current_class: ClassType,
}

impl<'a> View for Resolver<'a> {
    type V = Static;

    open spec fn view(&self) -> Static {
        Static {
            locals: self.interpreter@.locals,
            scopes: names_of(self.scopes@),
            function: self.current_function,
            class: self.current_class,
        }
    }
}

impl<'a> Resolver<'a> {
    /// A resolver at the start of a program. It annotates `interpreter`.
    pub fn new(interpreter: Interpreter<'a>) -> (resolver: Self)
        ensures
            resolver.interpreter == interpreter,
            resolver@ == Static::start(interpreter@.locals),
    {
        let resolver = Resolver {
            interpreter,
            scopes: Vec::new(),
            current_function: FunctionType::NoFunction,
            current_class: ClassType::NoClass,
        };
        assert(resolver@.scopes =~= Seq::empty());
        resolver
    }

    /// Resolves a whole program and hands back the interpreter, annotated
    /// and otherwise untouched, or the first static rule that the program
    /// breaks.
    ///
    /// If the expressions of the program have ids of their own and the
    /// interpreter knows nothing of them yet, then the table that the
    /// interpreter comes back with records every reference to a variable, to
    /// `this` or to `super` with the depth of the innermost local scope that
    /// declares the name where the reference stands, and nothing of any
    /// reference that no local scope declares.
    pub fn run(self, prog: &Program) -> (result: Result<Interpreter<'a>, ResolveError>)
        ensures
            match self@.resolve_decls(prog->0@, 0) {
                Ok(s) => result matches Ok(interpreter) && interpreter@
                    == self.interpreter@.with_locals(s.locals),
                Err(e) => result matches Err(x) && x == e,
            },
            self@ == Static::start(self@.locals) && unique_decls(prog@, prog@.len()) && fresh(
                self@.locals,
                decls_ids(prog@, prog@.len()),
            ) ==> (result matches Ok(interpreter) ==> decls_annotated(
                interpreter@.locals,
                Seq::empty(),
                prog->0@,
                0,
            )),
    {
        proof {
            if self@ == Static::start(self@.locals) && unique_decls(prog@, prog@.len()) && fresh(
                self@.locals,
                decls_ids(prog@, prog@.len()),
            ) && self@.resolve_decls(prog->0@, 0) is Ok {
                theorem_annotations_are_distances(self@.locals, prog->0@);
            }
        }
        let mut resolver = self;
        match prog {
            Program::Declarations(decls) => {
                match resolver.resolve(decls) {
                    Ok(()) => Ok(resolver.interpreter),
                    Err(e) => Err(e),
                }
            },
        }
    }

    /// Resolves a list of declarations in the scope that is innermost now.
    pub fn resolve(&mut self, stmts: &Vec<Declaration>) -> (result: Result<(), ResolveError>)
        ensures
            match old(self)@.resolve_decls(stmts@, 0) {
                Ok(s) => result is Ok && final(self)@ == s,
                Err(e) => result == Err::<(), ResolveError>(e),
            },
            same_machine(final(self).interpreter@, old(self).interpreter@),
        decreases stmts,
    {
        let mut i: usize = 0;
        while i < stmts.len()
            invariant
                i <= stmts@.len(),
                old(self)@.resolve_decls(stmts@, 0) == self@.resolve_decls(stmts@, i as int),
                same_machine(self.interpreter@, old(self).interpreter@),
            decreases stmts@.len() - i,
        {
            proof {
                assert(decreases_to!(stmts => stmts@));
                assert(decreases_to!(stmts@ => stmts@[i as int]));
            }
            match self.resolve_decl(&stmts[i]) {
                Ok(()) => {},
                Err(e) => {
                    return Err(e);
                },
            }
            i += 1;
        }
        Ok(())
    }

    fn resolve_decl(&mut self, decl: &Declaration) -> (result: Result<(), ResolveError>)
        ensures
            match old(self)@.resolve_decl(decl) {
                Ok(s) => result is Ok && final(self)@ == s,
                Err(e) => result == Err::<(), ResolveError>(e),
            },
            same_machine(final(self).interpreter@, old(self).interpreter@),
        decreases decl,
    {
        match decl {
            Declaration::Var { identifier, expression } => {
                match self.declare(identifier) {
                    Ok(()) => {},
                    Err(e) => {
                        return Err(e);
                    },
                }
                match self.resolve_expr(expression) {
                    Ok(()) => {},
                    Err(e) => {
                        return Err(e);
                    },
                }
                self.define(identifier);
                Ok(())
            },
            Declaration::Statement(stmt) => self.resolve_stmt(stmt),
        }
    }

    fn begin_class(&mut self, decl: &ClassDecl) -> (result: Result<(), ResolveError>)
        ensures
            match old(self)@.begin_class(decl) {
                Ok(s) => result is Ok && final(self)@ == s,
                Err(e) => result == Err::<(), ResolveError>(e),
            },
            same_machine(final(self).interpreter@, old(self).interpreter@),
    {
        self.current_class = ClassType::Class;
        match self.declare(&decl.name) {
            Ok(()) => {},
            Err(e) => {
                return Err(e);
            },
        }
        self.define(&decl.name);
        match &decl.superclass {
            Some(expr) => {
                match &expr.kind {
                    ExprKind::Var { name } => {
                        if name.same(&decl.name) {
                            return Err(ResolveError::InheritsFromItself);
                        }
                        self.current_class = ClassType::SubClass;
                        match self.resolve_variable(expr, name) {
                            Ok(()) => {},
                            Err(e) => {
                                return Err(e);
                            },
                        }
                    },
                    _ => {
                        return Err(ResolveError::SuperclassNotAName);
                    },
                }
                self.begin_scope_with("super");
            },
            None => {},
        }
        self.begin_scope_with("this");
        Ok(())
    }

    fn resolve_stmt(&mut self, stmt: &Stmt) -> (result: Result<(), ResolveError>)
        ensures
            match old(self)@.resolve_stmt(stmt) {
                Ok(s) => result is Ok && final(self)@ == s,
                Err(e) => result == Err::<(), ResolveError>(e),
            },
            same_machine(final(self).interpreter@, old(self).interpreter@),
        decreases stmt,
    {
        match stmt {
            Stmt::Expr(expr) => self.resolve_expr(expr),
            Stmt::Print(expr) => self.resolve_expr(expr),
            Stmt::FunctionDecl(decl) => {
                match self.declare(&decl.identifier) {
                    Ok(()) => {},
                    Err(e) => {
                        return Err(e);
                    },
                }
                self.define(&decl.identifier);
                self.resolve_function(decl, FunctionType::Function)
            },
            Stmt::If { condition, then_branch, else_branch } => {
                match self.resolve_expr(condition) {
                    Ok(()) => {},
                    Err(e) => {
                        return Err(e);
                    },
                }
                match self.resolve_stmt(then_branch) {
                    Ok(()) => {},
                    Err(e) => {
                        return Err(e);
                    },
                }
                match else_branch {
                    Some(stmt) => self.resolve_stmt(stmt),
                    None => Ok(()),
                }
            },
            Stmt::Return { value } => {
                if self.current_function == FunctionType::NoFunction {
                    return Err(ResolveError::ReturnOutsideFunction);
                }
                match value {
                    Some(expr) => {
                        if self.current_function == FunctionType::Initializer {
                            return Err(ResolveError::ReturnFromInitializer);
                        }
                        self.resolve_expr(expr)
                    },
                    None => Ok(()),
                }
            },
            Stmt::While { condition, body } => {
                match self.resolve_expr(condition) {
                    Ok(()) => {},
                    Err(e) => {
                        return Err(e);
                    },
                }
                self.resolve_stmt(body)
            },
            Stmt::Block(declarations) => {
                self.begin_scope();
                match self.resolve(declarations) {
                    Ok(()) => {},
                    Err(e) => {
                        return Err(e);
                    },
                }
                self.end_scope();
                Ok(())
            },
            Stmt::ClassDecl(class_decl) => self.resolve_class(class_decl),
        }
    }

    fn resolve_class(&mut self, class_decl: &ClassDecl) -> (result: Result<(), ResolveError>)
        ensures
            match old(self)@.begin_class(class_decl) {
                Ok(s) => match s.resolve_methods(class_decl.methods@, 0) {
                    Ok(t) => result is Ok && final(self)@ == t.end_class(
                        class_decl,
                        old(self)@.class,
                    ),
                    Err(e) => result == Err::<(), ResolveError>(e),
                },
                Err(e) => result == Err::<(), ResolveError>(e),
            },
            same_machine(final(self).interpreter@, old(self).interpreter@),
        decreases class_decl,
    {
        let enclosing_class = self.current_class;
        match self.begin_class(class_decl) {
            Ok(()) => {},
            Err(e) => {
                return Err(e);
            },
        }
        let ghost begun = self@;
        let mut i: usize = 0;
        while i < class_decl.methods.len()
            invariant
                i <= class_decl.methods@.len(),
                old(self)@.begin_class(class_decl) == Ok::<Static, ResolveError>(begun),
                enclosing_class == old(self)@.class,
                begun.resolve_methods(class_decl.methods@, 0) == self@.resolve_methods(
                    class_decl.methods@,
                    i as int,
                ),
                same_machine(self.interpreter@, old(self).interpreter@),
            decreases class_decl.methods@.len() - i,
        {
            let method = &class_decl.methods[i];
            let declaration = if method.identifier.is("init") {
                FunctionType::Initializer
            } else {
                FunctionType::Method
            };
            proof {
                assert(decreases_to!(class_decl => class_decl.methods));
                assert(decreases_to!(class_decl.methods => class_decl.methods@));
                assert(decreases_to!(class_decl.methods@ => class_decl.methods@[i as int]));
            }
            match self.resolve_function(method, declaration) {
                Ok(()) => {},
                Err(e) => {
                    return Err(e);
                },
            }
            i += 1;
        }
        self.end_scope();
        if class_decl.superclass.is_some() {
            self.end_scope();
        }
        self.current_class = enclosing_class;
        Ok(())
    }

    fn resolve_variable(&mut self, expr: &Expr, name: &Identifier) -> (result: Result<
        (),
        ResolveError,
    >)
        ensures
            match old(self)@.resolve_variable(expr.id, name@) {
                Ok(s) => result is Ok && final(self)@ == s,
                Err(e) => result == Err::<(), ResolveError>(e),
            },
            same_machine(final(self).interpreter@, old(self).interpreter@),
    {
        let n = self.scopes.len();
        if n > 0 {
            match self.scopes[n - 1].get(name.as_str()) {
                Some(ready) => {
                    if !*ready {
                        return Err(ResolveError::ReadInOwnInitializer);
                    }
                },
                None => {},
            }
        }
        self.resolve_local(expr, name);
        Ok(())
    }

    fn resolve_expr(&mut self, expr: &Expr) -> (result: Result<(), ResolveError>)
        ensures
            match old(self)@.resolve_expr(expr) {
                Ok(s) => result is Ok && final(self)@ == s,
                Err(e) => result == Err::<(), ResolveError>(e),
            },
            same_machine(final(self).interpreter@, old(self).interpreter@),
        decreases expr,
    {
        match &expr.kind {
            ExprKind::Assign { name, expr: child } => {
                match self.resolve_expr(child) {
                    Ok(()) => {},
                    Err(e) => {
                        return Err(e);
                    },
                }
                self.resolve_local(expr, name);
                Ok(())
            },
            ExprKind::Binary { left, right, .. } => {
                match self.resolve_expr(left) {
                    Ok(()) => {},
                    Err(e) => {
                        return Err(e);
                    },
                }
                self.resolve_expr(right)
            },
            ExprKind::Grouping { expr: inner } => self.resolve_expr(inner),
            ExprKind::Literal { .. } => Ok(()),
            ExprKind::Logical { left, right, .. } => {
                match self.resolve_expr(left) {
                    Ok(()) => {},
                    Err(e) => {
                        return Err(e);
                    },
                }
                self.resolve_expr(right)
            },
            ExprKind::Unary { right, .. } => self.resolve_expr(right),
            ExprKind::Call { callee, args, .. } => {
                match self.resolve_expr(callee) {
                    Ok(()) => {},
                    Err(e) => {
                        return Err(e);
                    },
                }
                let ghost begun = self@;
                let mut i: usize = 0;
                while i < args.len()
                    invariant
                        i <= args@.len(),
                        expr.kind is Call,
                        expr.kind->Call_args == *args,
                        old(self)@.resolve_expr(expr) == begun.resolve_exprs(args@, 0),
                        begun.resolve_exprs(args@, 0) == self@.resolve_exprs(args@, i as int),
                        same_machine(self.interpreter@, old(self).interpreter@),
                    decreases args@.len() - i,
                {
                    proof {
                        assert(decreases_to!(expr => expr.kind));
                        assert(decreases_to!(expr.kind => expr.kind->Call_args));
                        assert(decreases_to!(*args => args@));
                        assert(decreases_to!(args@ => args@[i as int]));
                    }
                    match self.resolve_expr(&args[i]) {
                        Ok(()) => {},
                        Err(e) => {
                            return Err(e);
                        },
                    }
                    i += 1;
                }
                Ok(())
            },
            ExprKind::Var { name } => self.resolve_variable(expr, name),
            ExprKind::Get { object, .. } => self.resolve_expr(object),
            ExprKind::Put { object, value, .. } => {
                match self.resolve_expr(value) {
                    Ok(()) => {},
                    Err(e) => {
                        return Err(e);
                    },
                }
                self.resolve_expr(object)
            },
            ExprKind::This { token } => {
                if self.current_class == ClassType::NoClass {
                    return Err(ResolveError::ThisOutsideClass);
                }
                self.resolve_local(expr, token);
                Ok(())
            },
            ExprKind::Super { token, .. } => {
                if self.current_class == ClassType::NoClass {
                    return Err(ResolveError::SuperOutsideClass);
                } else if self.current_class != ClassType::SubClass {
                    return Err(ResolveError::SuperWithoutSuperclass);
                }
                self.resolve_local(expr, token);
                Ok(())
            },
        }
    }

    fn begin_scope(&mut self)
        ensures
            final(self)@ == old(self)@.begin_scope(),
            final(self).interpreter == old(self).interpreter,
    {
        self.scopes.push(StringHashMap::new());
        assert(self@.scopes =~= old(self)@.scopes.push(Map::empty()));
    }

    fn begin_scope_with(&mut self, name: &str)
        ensures
            final(self)@ == old(self)@.begin_scope_with(name@),
            final(self).interpreter == old(self).interpreter,
    {
        let mut scope: StringHashMap<bool> = StringHashMap::new();
        scope.insert(String::from_str(name), true);
        self.scopes.push(scope);
        assert(self@.scopes =~= old(self)@.scopes.push(
            Map::<Seq<char>, bool>::empty().insert(name@, true),
        ));
    }

    fn end_scope(&mut self)
        ensures
            final(self)@ == old(self)@.end_scope(),
            final(self).interpreter == old(self).interpreter,
    {
        let _ = self.scopes.pop();
        assert(self@.scopes =~= old(self)@.end_scope().scopes);
    }

    fn declare(&mut self, name: &Identifier) -> (result: Result<(), ResolveError>)
        ensures
            match old(self)@.declare(name@) {
                Ok(s) => result is Ok && final(self)@ == s,
                Err(e) => result == Err::<(), ResolveError>(e),
            },
            final(self).interpreter == old(self).interpreter,
    {
        let n = self.scopes.len();
        if n > 0 {
            if self.scopes[n - 1].contains_key(name.as_str()) {
                return Err(ResolveError::AlreadyDeclared);
            }
            self.scopes[n - 1].insert(name.clone().0, false);
            assert(self@.scopes =~= old(self)@.declare(name@)->Ok_0.scopes);
        }
        Ok(())
    }

    fn define(&mut self, name: &Identifier)
        ensures
            final(self)@ == old(self)@.define(name@),
            final(self).interpreter == old(self).interpreter,
    {
        let n = self.scopes.len();
        if n > 0 {
            self.scopes[n - 1].insert(name.clone().0, true);
            assert(self@.scopes =~= old(self)@.define(name@).scopes);
        }
    }

    fn resolve_local(&mut self, expr: &Expr, name: &Identifier)
        ensures
            final(self)@ == old(self)@.resolve_local(expr.id, name@),
            same_machine(final(self).interpreter@, old(self).interpreter@),
    {
        let n = self.scopes.len();
        let mut i: usize = n;
        while i > 0
            invariant
                i <= n,
                n == self.scopes@.len(),
                *self == *old(self),
                forall|j: int| i <= j < n ==> !self@.scopes[j].contains_key(name@),
            decreases i,
        {
            i = i - 1;
            if self.scopes[i].contains_key(name.as_str()) {
                let depth = n - 1 - i;
                proof {
                    lemma_depth_found(self@.scopes, name@, i as int);
                }
                self.interpreter.resolve(expr, depth);
                return ;
            }
        }
        proof {
            lemma_depth_absent(self@.scopes, name@);
        }
    }

    fn resolve_function(&mut self, function_stmt: &FunctionStmt, kind: FunctionType) -> (result:
        Result<(), ResolveError>)
        ensures
            match old(self)@.resolve_function(function_stmt, kind) {
                Ok(s) => result is Ok && final(self)@ == s,
                Err(e) => result == Err::<(), ResolveError>(e),
            },
            same_machine(final(self).interpreter@, old(self).interpreter@),
        decreases function_stmt,
    {
        let enclosing_function = self.current_function;
        self.current_function = kind;
        self.begin_scope();
        let ghost inside = self@;
        let mut i: usize = 0;
        while i < function_stmt.parameters.len()
            invariant
                i <= function_stmt.parameters@.len(),
                inside == (Static { function: kind, ..old(self)@ }).begin_scope(),
                enclosing_function == old(self)@.function,
                inside.declare_parameters(function_stmt.parameters@, i as nat) == Ok::<
                    Static,
                    ResolveError,
                >(self@),
                self.interpreter == old(self).interpreter,
            decreases function_stmt.parameters@.len() - i,
        {
            let ident = Identifier(function_stmt.parameters[i].lexeme.clone());
            match self.declare(&ident) {
                Ok(()) => {},
                Err(e) => {
                    proof {
                        lemma_parameters_fail(
                            inside,
                            function_stmt.parameters@,
                            (i + 1) as nat,
                            function_stmt.parameters@.len(),
                        );
                    }
                    return Err(e);
                },
            }
            self.define(&ident);
            i += 1;
        }
        match self.resolve(&function_stmt.body) {
            Ok(()) => {},
            Err(e) => {
                return Err(e);
            },
        }
        self.end_scope();
        self.current_function = enclosing_function;
        Ok(())
    }
}

/// Once a parameter is refused, the whole parameter list is.
proof fn lemma_parameters_fail(s: Static, params: Seq<Token>, k: nat, n: nat)
    requires
        k <= n,
        s.declare_parameters(params, k) is Err,
    ensures
        s.declare_parameters(params, n) == s.declare_parameters(params, k),
    decreases n,
{
    if k < n {
        lemma_parameters_fail(s, params, k, (n - 1) as nat);
    }
}

impl ResolveError {
    /// The rule that was broken, in words.
    pub open spec fn spec_message(self) -> Seq<char> {
        match self {
            ResolveError::AlreadyDeclared => "already a variable with this name in this scope"@,
            ResolveError::ReturnOutsideFunction => "can't return from a top-level function"@,
            ResolveError::ReturnFromInitializer => "can't return a value from an initializer"@,
            ResolveError::ThisOutsideClass => "can't use 'this' keyword outside of a class"@,
            ResolveError::SuperOutsideClass => "can't use 'super' outside of class"@,
            ResolveError::SuperWithoutSuperclass => "can't use 'super' in a class with no superclass"@,
            ResolveError::InheritsFromItself => "a class can't inherit from itself"@,
            ResolveError::ReadInOwnInitializer => "can't read local var in its own initializer"@,
            ResolveError::SuperclassNotAName => "superclass is not a name"@,
        }
    }

    /// The rule that was broken, in words.
    pub fn message(&self) -> (text: String)
        ensures
            text@ == self.spec_message(),
    {
        match self {
            ResolveError::AlreadyDeclared => String::from_str(
                "already a variable with this name in this scope",
            ),
            ResolveError::ReturnOutsideFunction => String::from_str(
                "can't return from a top-level function",
            ),
            ResolveError::ReturnFromInitializer => String::from_str(
                "can't return a value from an initializer",
            ),
            ResolveError::ThisOutsideClass => String::from_str(
                "can't use 'this' keyword outside of a class",
            ),
            ResolveError::SuperOutsideClass => String::from_str(
                "can't use 'super' outside of class",
            ),
            ResolveError::SuperWithoutSuperclass => String::from_str(
                "can't use 'super' in a class with no superclass",
            ),
            ResolveError::InheritsFromItself => String::from_str(
                "a class can't inherit from itself",
            ),
            ResolveError::ReadInOwnInitializer => String::from_str(
                "can't read local var in its own initializer",
            ),
            ResolveError::SuperclassNotAName => String::from_str("superclass is not a name"),
        }
    }
}

} // verus!
