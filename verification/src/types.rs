//! Values of the language and the names that refer to them.

use vstd::prelude::*;
use vstd::string::StringExecFns;
use crate::builtins::Builtin;

verus! {

/// A name used as a key wherever variables, fields and methods are looked up.
/// Two identifiers denote the same name when their characters agree.
#[derive(Debug)]
pub struct Identifier(pub String);

impl View for Identifier {
    type V = Seq<char>;

    open spec fn view(&self) -> Seq<char> {
        self.0@
    }
}

impl Clone for Identifier {
    fn clone(&self) -> (copy: Self)
        ensures
            copy == *self,
    {
        Identifier(self.0.clone())
    }
}

impl Identifier {
    /// The identifier spelled `name`.
    pub fn new(name: &str) -> (id: Identifier)
        ensures
            id@ == name@,
    {
        Identifier(String::from_str(name))
    }

    /// Whether both identifiers spell the same name.
    pub fn same(&self, other: &Identifier) -> (r: bool)
        ensures
            r == (self@ == other@),
    {
        self.0 == other.0
    }

    /// Whether the identifier is spelled `text`.
    pub fn is(&self, text: &str) -> (r: bool)
        ensures
            r == (self@ == text@),
    {
        let other = String::from_str(text);
        self.0 == other
    }

    /// The characters of the name.
    pub fn as_str(&self) -> (s: &str)
        ensures
            s@ == self@,
    {
        self.0.as_str()
    }
}

/// What can be called without being a class: a function declared by the
/// program (possibly bound to a receiver) or a native function.
#[derive(Clone, Copy, PartialEq, Eq, Structural, Debug)]
pub enum Callable {
    /// Handle of a closure held by the interpreter.
    Function(usize),
    /// A native function.
    Builtin(Builtin),
}

/// A value of the language.
///
/// Strings, functions, classes and instances live in stores owned by the
/// interpreter; a value refers to them by handle, so copying a value never
/// copies an instance and two copies always denote the same instance.
/// A number is carried as the bit pattern of a double-precision float and is
/// never interpreted by this crate.
#[derive(Clone, Copy, PartialEq, Eq, Structural, Debug)]
pub enum Object {
    /// Handle of a text held by the interpreter.
    String(usize),
    /// Bit pattern of a double-precision float.
    Number(u64),
    Boolean(bool),
    Callable(Callable),
    /// Handle of a class.
    Class(usize),
    /// Handle of an instance.
    ClassInstance(usize),
    Null,
}

/// The ways a running program can fail. Each one ends the run.
#[derive(Clone, Copy, PartialEq, Eq, Structural, Debug)]
pub enum RuntimeError {
    /// A name that no reachable scope defines was read or assigned.
    UndefinedVariable,
    /// Neither a field nor a method of that name exists on the instance.
    UndefinedProperty,
    /// A call passed a number of arguments different from the callee's arity.
    ArityMismatch,
    /// The callee of a call is neither a function nor a class.
    NotCallable,
    /// An operator was applied to operands it is not defined for.
    TypeMismatch,
    /// A prefix operator other than `-` was evaluated.
    UnsupportedOperator,
    /// A condition or the left operand of `and`/`or` is not a boolean.
    NonBoolean,
    /// Two functions, two classes or two instances were compared for equality.
    UnsupportedEquality,
    /// A receiver was bound to something that is not a declared function.
    UnsupportedBind,
    /// A property was read or written on something that is not an instance.
    NotAnInstance,
    /// The superclass clause of a class does not evaluate to a class.
    SuperclassNotClass,
    /// The stores and the resolver's annotations disagree.
    Inconsistent,
    /// The host answered a request with an event of the wrong kind.
    UnexpectedEvent,
}

impl Object {
    /// The truth value of a boolean; no other value has one.
    pub open spec fn truth(self) -> Result<bool, RuntimeError> {
        match self {
            Object::Boolean(value) => Ok(value),
            _ => Err(RuntimeError::NonBoolean),
        }
    }

    /// The truth value of `self` in a condition: that of a boolean, and a
    /// failure for every other value.
    pub fn is_truthy(&self) -> (r: Result<bool, RuntimeError>)
        ensures
            r == self.truth(),
    {
        match self {
            Object::Boolean(value) => Ok(*value),
            _ => Err(RuntimeError::NonBoolean),
        }
    }
}

impl RuntimeError {
    /// What went wrong, in words.
    pub open spec fn spec_message(self) -> Seq<char> {
        match self {
            RuntimeError::UndefinedVariable => "undefined variable"@,
            RuntimeError::UndefinedProperty => "undefined property"@,
            RuntimeError::ArityMismatch => "wrong number of arguments"@,
            RuntimeError::NotCallable => "value is not callable"@,
            RuntimeError::TypeMismatch => "invalid operator for these operands"@,
            RuntimeError::UnsupportedOperator => "unexpected prefix operator, expecting '-'"@,
            RuntimeError::NonBoolean => "invalid non-boolean value evaluated to truthy"@,
            RuntimeError::UnsupportedEquality => "can't compare functions, classes or instances"@,
            RuntimeError::UnsupportedBind => "can't bind this value"@,
            RuntimeError::NotAnInstance => "only instances have properties"@,
            RuntimeError::SuperclassNotClass => "superclass is not a class"@,
            RuntimeError::Inconsistent => "the stores and the resolver's annotations disagree"@,
            RuntimeError::UnexpectedEvent => "the host answered with the wrong kind of event"@,
        }
    }

    /// What went wrong, in words.
    pub fn message(&self) -> (text: String)
        ensures
            text@ == self.spec_message(),
    {
        match self {
            RuntimeError::UndefinedVariable => String::from_str("undefined variable"),
            RuntimeError::UndefinedProperty => String::from_str("undefined property"),
            RuntimeError::ArityMismatch => String::from_str("wrong number of arguments"),
            RuntimeError::NotCallable => String::from_str("value is not callable"),
            RuntimeError::TypeMismatch => String::from_str("invalid operator for these operands"),
            RuntimeError::UnsupportedOperator => String::from_str(
                "unexpected prefix operator, expecting '-'",
            ),
            RuntimeError::NonBoolean => String::from_str(
                "invalid non-boolean value evaluated to truthy",
            ),
            RuntimeError::UnsupportedEquality => String::from_str(
                "can't compare functions, classes or instances",
            ),
            RuntimeError::UnsupportedBind => String::from_str("can't bind this value"),
            RuntimeError::NotAnInstance => String::from_str("only instances have properties"),
            RuntimeError::SuperclassNotClass => String::from_str("superclass is not a class"),
            RuntimeError::Inconsistent => String::from_str(
                "the stores and the resolver's annotations disagree",
            ),
            RuntimeError::UnexpectedEvent => String::from_str(
                "the host answered with the wrong kind of event",
            ),
        }
    }
}

} // verus!
