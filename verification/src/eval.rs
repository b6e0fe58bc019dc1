//! What the operators of the language mean on values.
//!
//! Nothing here computes with numbers. Where the result of an operator
//! depends on the numeric value of its operands, the outcome is a request to
//! the host of the interpreter, which answers with the resulting number or
//! truth value.

use vstd::prelude::*;
use crate::heap::{Heap, HeapView};
use crate::interpreter::Interpreter;
use crate::machine::{Action, Event};
use crate::scanner::TokenType;
use crate::syntax::{Expr, Literal};
use crate::types::{Object, RuntimeError};

verus! {

/// The four arithmetic operators on numbers.
#[derive(Clone, Copy, PartialEq, Eq, Structural, Debug)]
pub enum Arithmetic {
    Add,
    Subtract,
    Multiply,
    Divide,
}

/// The tests on two numbers that yield a truth value.
#[derive(Clone, Copy, PartialEq, Eq, Structural, Debug)]
pub enum Relation {
    Less,
    LessEqual,
    Greater,
    GreaterEqual,
    Equal,
}

/// What the interpreter asks of its host. Numbers go out and come back as
/// bit patterns of double-precision floats.
#[derive(Clone, Copy, Debug)]
pub enum Request<'a> {
    /// The number that the digits denote.
    Literal(&'a String),
    /// The negated number.
    Negate(u64),
    /// The result of the operator on the two numbers, left operand first.
    Arithmetic(Arithmetic, u64, u64),
    /// Whether the relation holds of the two numbers, left operand first.
    Relation(Relation, u64, u64),
    /// The current time in seconds.
    Clock,
}

impl<'a> Request<'a> {
    /// Whether the host answers the request with a truth value; every other
    /// request is answered with a number.
    pub open spec fn wants_truth(self) -> bool {
        self is Relation
    }

    /// Whether the host answers the request with a truth value; every other
    /// request is answered with a number.
    pub fn answered_by_truth(&self) -> (r: bool)
        ensures
            r == self.wants_truth(),
    {
        match self {
            Request::Relation(_, _, _) => true,
            _ => false,
        }
    }
}

/// What applying an operator to values comes to.
#[derive(Clone, Copy, Debug)]
pub enum Outcome<'a> {
    /// The result.
    Value(Object),
    /// The host computes the result; a truth value it answers is negated
    /// first if `negate` is set.
    Ask { request: Request<'a>, negate: bool },
    /// The operator is not defined on the operands.
    Fault(RuntimeError),
}

/// Whether two values that are not both numbers are equal. Values of
/// different kinds are unequal. Texts are equal when their characters agree.
/// Equality of two functions, two classes or two instances is not defined.
pub open spec fn equality(heap: HeapView, left: Object, right: Object) -> Result<
    bool,
    RuntimeError,
> {
    match (left, right) {
        (Object::String(a), Object::String(b)) => if a < heap.strings.len() && b
            < heap.strings.len() {
            Ok(heap.strings[a as int] == heap.strings[b as int])
        } else {
            Err(RuntimeError::Inconsistent)
        },
        (Object::Boolean(a), Object::Boolean(b)) => Ok(a == b),
        (Object::Null, Object::Null) => Ok(true),
        (Object::Callable(_), Object::Callable(_)) => Err(RuntimeError::UnsupportedEquality),
        (Object::Class(_), Object::Class(_)) => Err(RuntimeError::UnsupportedEquality),
        (Object::ClassInstance(_), Object::ClassInstance(_)) => Err(
            RuntimeError::UnsupportedEquality,
        ),
        _ => Ok(false),
    }
}

/// The outcome of `left == right`, or of `left != right` if `negate` is set.
pub open spec fn equals<'a>(heap: HeapView, left: Object, right: Object, negate: bool) -> Outcome<
    'a,
> {
    match (left, right) {
        (Object::Number(a), Object::Number(b)) => Outcome::Ask {
            request: Request::Relation(Relation::Equal, a, b),
            negate,
        },
        _ => match equality(heap, left, right) {
            Ok(same) => Outcome::Value(Object::Boolean(same != negate)),
            Err(e) => Outcome::Fault(e),
        },
    }
}

/// The arithmetic operator that a token type denotes.
pub open spec fn arithmetic_of(op: TokenType) -> Option<Arithmetic> {
    match op {
        TokenType::Minus => Some(Arithmetic::Subtract),
        TokenType::Plus => Some(Arithmetic::Add),
        TokenType::Slash => Some(Arithmetic::Divide),
        TokenType::Star => Some(Arithmetic::Multiply),
        _ => None,
    }
}

/// The ordering test that a token type denotes.
pub open spec fn relation_of(op: TokenType) -> Option<Relation> {
    match op {
        TokenType::Greater => Some(Relation::Greater),
        TokenType::GreaterEqual => Some(Relation::GreaterEqual),
        TokenType::Less => Some(Relation::Less),
        TokenType::LessEqual => Some(Relation::LessEqual),
        _ => None,
    }
}

/// The outcome of the binary operator `op` on two values, and the stores
/// afterwards.
///
/// On two numbers the arithmetic operators and the ordering tests are left
/// to the host. `==` and `!=` accept any two values. `+` on two texts stores
/// their concatenation. Every other combination is a type mismatch; nothing
/// is converted.
pub open spec fn binary<'a>(heap: HeapView<'a>, left: Object, op: TokenType, right: Object) -> (
    HeapView<'a>,
    Outcome<'a>,
) {
    if left is Number && right is Number && arithmetic_of(op) is Some {
        (
            heap,
            Outcome::Ask {
                request: Request::Arithmetic(
                    arithmetic_of(op)->0,
                    left->Number_0,
                    right->Number_0,
                ),
                negate: false,
            },
        )
    } else if left is Number && right is Number && relation_of(op) is Some {
        (
            heap,
            Outcome::Ask {
                request: Request::Relation(relation_of(op)->0, left->Number_0, right->Number_0),
                negate: false,
            },
        )
    } else if op == TokenType::EqualEqual {
        (heap, equals(heap, left, right, false))
    } else if op == TokenType::BangEqual {
        (heap, equals(heap, left, right, true))
    } else if left is String && right is String && op == TokenType::Plus {
        let a = left->String_0;
        let b = right->String_0;
        if a < heap.strings.len() && b < heap.strings.len() {
            (
                heap.with_text(heap.strings[a as int] + heap.strings[b as int]),
                Outcome::Value(Object::String(heap.strings.len() as usize)),
            )
        } else {
            (heap, Outcome::Fault(RuntimeError::Inconsistent))
        }
    } else {
        (heap, Outcome::Fault(RuntimeError::TypeMismatch))
    }
}

/// The outcome of the prefix operator `op` on a value: negation of a number
/// is left to the host, `-` on anything else is a type mismatch, and no other
/// prefix operator is defined.
pub open spec fn unary<'a>(op: TokenType, operand: Object) -> Outcome<'a> {
    if op != TokenType::Minus {
        Outcome::Fault(RuntimeError::UnsupportedOperator)
    } else {
        match operand {
            Object::Number(n) => Outcome::Ask { request: Request::Negate(n), negate: false },
            _ => Outcome::Fault(RuntimeError::TypeMismatch),
        }
    }
}

/// Whether `or` (if `op` is `Or`) or `and` (for any other `op`) is decided by
/// its left operand alone, in which case that operand is the result.
pub open spec fn logical(op: TokenType, left: Object) -> Result<bool, RuntimeError> {
    match left.truth() {
        Ok(truth) => Ok((op == TokenType::Or) == truth),
        Err(e) => Err(e),
    }
}

/// The outcome of evaluating a literal, and the stores afterwards. A text is
/// copied into the stores; the value of a number is left to the host.
pub open spec fn literal<'a>(heap: HeapView<'a>, value: &'a Literal) -> (
    HeapView<'a>,
    Outcome<'a>,
) {
    match value {
        Literal::String(text) => (
            heap.with_text(text@),
            Outcome::Value(Object::String(heap.strings.len() as usize)),
        ),
        Literal::Number(digits) => (
            heap,
            Outcome::Ask { request: Request::Literal(digits), negate: false },
        ),
        Literal::Boolean(b) => (heap, Outcome::Value(Object::Boolean(*b))),
        Literal::Null => (heap, Outcome::Value(Object::Null)),
    }
}

/// Decides whether two values that are not both numbers are equal.
pub fn is_equal(heap: &Heap, left: Object, right: Object) -> (r: Result<bool, RuntimeError>)
    ensures
        r == equality(heap@, left, right),
{
    match (left, right) {
        (Object::String(a), Object::String(b)) => {
            if a < heap.strings.len() && b < heap.strings.len() {
                Ok(heap.same_text(a, b))
            } else {
                Err(RuntimeError::Inconsistent)
            }
        },
        (Object::Boolean(a), Object::Boolean(b)) => Ok(a == b),
        (Object::Null, Object::Null) => Ok(true),
        (Object::Callable(_), Object::Callable(_)) => Err(RuntimeError::UnsupportedEquality),
        (Object::Class(_), Object::Class(_)) => Err(RuntimeError::UnsupportedEquality),
        (Object::ClassInstance(_), Object::ClassInstance(_)) => Err(
            RuntimeError::UnsupportedEquality,
        ),
        _ => Ok(false),
    }
}

fn eval_equals<'a>(heap: &Heap, left: Object, right: Object, negate: bool) -> (outcome: Outcome<'a>)
    ensures
        outcome == equals(heap@, left, right, negate),
{
    match (left, right) {
        (Object::Number(a), Object::Number(b)) => Outcome::Ask {
            request: Request::Relation(Relation::Equal, a, b),
            negate,
        },
        _ => match is_equal(heap, left, right) {
            Ok(same) => Outcome::Value(Object::Boolean(same != negate)),
            Err(e) => Outcome::Fault(e),
        },
    }
}

fn arithmetic_operator(op: TokenType) -> (r: Option<Arithmetic>)
    ensures
        r == arithmetic_of(op),
{
    match op {
        TokenType::Minus => Some(Arithmetic::Subtract),
        TokenType::Plus => Some(Arithmetic::Add),
        TokenType::Slash => Some(Arithmetic::Divide),
        TokenType::Star => Some(Arithmetic::Multiply),
        _ => None,
    }
}

fn relation_operator(op: TokenType) -> (r: Option<Relation>)
    ensures
        r == relation_of(op),
{
    match op {
        TokenType::Greater => Some(Relation::Greater),
        TokenType::GreaterEqual => Some(Relation::GreaterEqual),
        TokenType::Less => Some(Relation::Less),
        TokenType::LessEqual => Some(Relation::LessEqual),
        _ => None,
    }
}

/// Applies the binary operator `op` to two values.
pub fn eval_binary<'a>(heap: &mut Heap<'a>, left: Object, op: TokenType, right: Object) -> (outcome:
    Outcome<'a>)
    ensures
        final(heap)@ == binary(old(heap)@, left, op, right).0,
        outcome == binary(old(heap)@, left, op, right).1,
        old(heap).wf() ==> final(heap).wf(),
{
    match (left, right) {
        (Object::Number(a), Object::Number(b)) => {
            match arithmetic_operator(op) {
                Some(operator) => {
                    return Outcome::Ask {
                        request: Request::Arithmetic(operator, a, b),
                        negate: false,
                    };
                },
                None => {},
            }
            match relation_operator(op) {
                Some(relation) => {
                    return Outcome::Ask {
                        request: Request::Relation(relation, a, b),
                        negate: false,
                    };
                },
                None => {},
            }
        },
        _ => {},
    }
    if op == TokenType::EqualEqual {
        return eval_equals(heap, left, right, false);
    }
    if op == TokenType::BangEqual {
        return eval_equals(heap, left, right, true);
    }
    match (left, op, right) {
        (Object::String(a), TokenType::Plus, Object::String(b)) => {
            if a < heap.strings.len() && b < heap.strings.len() {
                Outcome::Value(heap.concat(a, b))
            } else {
                Outcome::Fault(RuntimeError::Inconsistent)
            }
        },
        _ => Outcome::Fault(RuntimeError::TypeMismatch),
    }
}

/// Applies the prefix operator `op` to a value.
pub fn eval_unary<'a>(op: TokenType, operand: Object) -> (outcome: Outcome<'a>)
    ensures
        outcome == unary(op, operand),
{
    if op != TokenType::Minus {
        Outcome::Fault(RuntimeError::UnsupportedOperator)
    } else {
        match operand {
            Object::Number(n) => Outcome::Ask { request: Request::Negate(n), negate: false },
            _ => Outcome::Fault(RuntimeError::TypeMismatch),
        }
    }
}

/// Decides whether the left operand of `and` / `or` is already the result.
pub fn eval_logical(op: TokenType, left: Object) -> (r: Result<bool, RuntimeError>)
    ensures
        r == logical(op, left),
{
    match left.is_truthy() {
        Ok(truth) => Ok((op == TokenType::Or) == truth),
        Err(e) => Err(e),
    }
}

/// Evaluates a literal.
pub fn eval_literal<'a>(heap: &mut Heap<'a>, value: &'a Literal) -> (outcome: Outcome<'a>)
    ensures
        final(heap)@ == literal(old(heap)@, value).0,
        outcome == literal(old(heap)@, value).1,
        old(heap).wf() ==> final(heap).wf(),
{
    match value {
        Literal::String(text) => Outcome::Value(heap.add_text(text.clone())),
        Literal::Number(digits) => Outcome::Ask { request: Request::Literal(digits), negate: false },
        Literal::Boolean(b) => Outcome::Value(Object::Boolean(*b)),
        Literal::Null => Outcome::Value(Object::Null),
    }
}

/// Evaluates `expr` in the scope that is in force in `interpreter`: starts
/// the evaluation and makes up to `budget` steps after that, up to the first
/// at which the host has something to do. On an interpreter that has
/// nothing else to run, the action that ends the evaluation is
/// `Action::Finished` with the value of the expression.
pub fn eval<'a>(interpreter: &mut Interpreter<'a>, expr: &'a Expr, budget: u64) -> (action: Action<
    'a,
>)
    requires
        old(interpreter).wf(),
    ensures
        final(interpreter)@ == old(interpreter)@.evaluate(expr).run(Event::Resume, budget as nat),
        action == final(interpreter)@.action(),
        final(interpreter).wf(),
{
    interpreter.eval(expr);
    interpreter.run(Event::Resume, budget)
}

} // verus!
