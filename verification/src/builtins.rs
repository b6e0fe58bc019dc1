//! Native functions that every program finds in its global scope.

use vstd::prelude::*;
use crate::types::{Callable, Object};

verus! {

/// The native functions known to the interpreter.
#[derive(Clone, Copy, PartialEq, Eq, Structural, Debug)]
pub enum Builtin {
    /// Wall-clock time in seconds; takes no argument.
    Clock,
}

impl Builtin {
    /// Number of arguments the native function expects.
    pub open spec fn spec_arity(self) -> nat {
        0
    }

    /// Number of arguments the native function expects.
    pub fn arity(&self) -> (n: usize)
        ensures
            n == self.spec_arity(),
    {
        0
    }
}

/// The native function bound to the global name `clock`.
pub fn clock_fn() -> (object: Object)
    ensures
        object == Object::Callable(Callable::Builtin(Builtin::Clock)),
{
    Object::Callable(Callable::Builtin(Builtin::Clock))
}

/// The table of global names and the native functions bound to them.
pub fn get_builtins() -> (table: Vec<(&'static str, Object)>)
    ensures
        table@.len() == 1,
        table@[0].0@ == "clock"@,
        table@[0].1 == Object::Callable(Callable::Builtin(Builtin::Clock)),
{
    let mut table: Vec<(&'static str, Object)> = Vec::new();
    table.push(("clock", clock_fn()));
    table
}

} // verus!
