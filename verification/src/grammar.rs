//! The grammar of the language, as functions from tokens to trees.
//!
//! Each function reads one construct from the start of a token sequence
//! and tells the tree it stands for, how many tokens it took, and the next
//! unused expression id; or why the tokens do not start with that construct.
//! Operators of one level associate to the left; assignment associates to
//! the right. Levels, loosest first: assignment, `or`, `and`, equality,
//! comparison, term, factor, prefix operator, call.

use vstd::prelude::*;
use vstd::string::StringExecFns;
use crate::scanner::TokenType;
use crate::syntax::{
    ClassTree, DeclTree, ExprKindTree, ExprTree, FunctionTree, LiteralView, StmtTree, TokenView,
};

verus! {

/// Why a token sequence is not a program.
#[derive(Clone, Copy, PartialEq, Eq, Structural, Debug)]
pub enum SyntaxError {
    /// The tokens end where an expression is expected.
    UnexpectedEnd,
    /// No expression starts with this token.
    UnexpectedToken,
    /// `var` is not followed by a name.
    ExpectedVariableName,
    /// The name of a variable is not followed by `=`.
    ExpectedInitializer,
    ExpectedSemicolon,
    ExpectedLeftParen,
    ExpectedRightParen,
    ExpectedLeftBrace,
    ExpectedRightBrace,
    /// `class` is not followed by a name.
    ExpectedClassName,
    /// `<` in a class header is not followed by a name.
    ExpectedSuperclassName,
    /// `super` is not followed by `.` and a name.
    ExpectedSuperclassMethod,
    /// A function or method does not start with a name.
    ExpectedFunctionName,
    ExpectedParameterName,
    /// `.` is not followed by a name.
    ExpectedPropertyName,
    /// The left side of `=` is neither a variable nor a property.
    InvalidAssignmentTarget,
    /// A call passes more than 255 arguments.
    TooManyArguments,
    /// A function declares more than 255 parameters.
    TooManyParameters,
    /// A declaration was read without taking a token. No list of tokens
    /// makes the parser report this: every declaration takes a token.
    Stuck,
}

/// What was read from the start of a token sequence.
pub struct Parsed<T> {
    pub value: T,
    /// Number of tokens taken.
    pub used: nat,
    /// The next unused expression id.
    pub counter: nat,
}

/// What is left to read: the tokens from position `pos` on.
pub struct Input {
    pub tokens: Seq<TokenView>,
    pub pos: nat,
}

impl Input {
    /// Number of tokens left.
    pub open spec fn left(self) -> nat {
        if self.pos <= self.tokens.len() {
            (self.tokens.len() - self.pos) as nat
        } else {
            0
        }
    }

    /// The token `i` places ahead.
    pub open spec fn at(self, i: nat) -> TokenView {
        self.tokens[(self.pos + i) as int]
    }
}

/// What is left after `n` more tokens.
pub open spec fn after(rest: Input, n: nat) -> Input {
    Input { tokens: rest.tokens, pos: rest.pos + n }
}

/// Whether the next token is of type `typ`.
pub open spec fn starts(rest: Input, typ: TokenType) -> bool {
    rest.left() > 0 && rest.at(0).typ == typ
}

/// The levels of left-associative binary operators, tightest last.
#[derive(Clone, Copy, PartialEq, Eq, Structural, Debug)]
pub enum Level {
    Equality,
    Comparison,
    Term,
    Factor,
}

impl Level {
    /// Whether a token of type `typ` is an operator of this level.
    pub open spec fn has(self, typ: TokenType) -> bool {
        match self {
            Level::Equality => typ == TokenType::BangEqual || typ == TokenType::EqualEqual,
            Level::Comparison => typ == TokenType::Greater || typ == TokenType::GreaterEqual || typ
                == TokenType::Less || typ == TokenType::LessEqual,
            Level::Term => typ == TokenType::Minus || typ == TokenType::Plus,
            Level::Factor => typ == TokenType::Slash || typ == TokenType::Star,
        }
    }

    /// Where the level stands among the constructs of the grammar, loosest
    /// highest.
    pub open spec fn rank(self) -> nat {
        match self {
            Level::Equality => 12,
            Level::Comparison => 10,
            Level::Term => 8,
            Level::Factor => 6,
        }
    }
}

/// The literal expression with the given id.
pub open spec fn literal(id: nat, value: LiteralView) -> ExprTree {
    ExprTree { id, kind: ExprKindTree::Literal { value } }
}

/// An expression read from a single token.
pub open spec fn leaf(tree: ExprTree, counter: nat) -> Result<Parsed<ExprTree>, SyntaxError> {
    Ok(Parsed { value: tree, used: 1, counter: counter + 1 })
}

/// A literal, a name, `this`, `super.name`, or an expression in
/// parentheses.
#[verifier::opaque]
pub open spec fn primary(rest: Input, counter: nat) -> Result<Parsed<ExprTree>, SyntaxError>
    decreases rest.left(), 0nat,
{
    if rest.left() == 0 {
        Err(SyntaxError::UnexpectedEnd)
    } else {
        let token = rest.at(0);
        match token.typ {
            TokenType::False => leaf(literal(counter, LiteralView::Boolean(false)), counter),
            TokenType::True => leaf(literal(counter, LiteralView::Boolean(true)), counter),
            TokenType::Nil => leaf(literal(counter, LiteralView::Null), counter),
            TokenType::Number => leaf(literal(counter, LiteralView::Number(token.lexeme)), counter),
            TokenType::String => leaf(literal(counter, LiteralView::String(token.lexeme)), counter),
            TokenType::Identifier => leaf(
                ExprTree { id: counter, kind: ExprKindTree::Var { name: token.lexeme } },
                counter,
            ),
            TokenType::This => leaf(
                ExprTree { id: counter, kind: ExprKindTree::This { token: token.lexeme } },
                counter,
            ),
            TokenType::Super => if rest.left() >= 3 && rest.at(1).typ == TokenType::Dot && rest.at(2).typ
                == TokenType::Identifier {
                Ok(
                    Parsed {
                        value: ExprTree {
                            id: counter,
                            kind: ExprKindTree::Super {
                                token: token.lexeme,
                                method: rest.at(2).lexeme,
                            },
                        },
                        used: 3,
                        counter: counter + 1,
                    },
                )
            } else {
                Err(SyntaxError::ExpectedSuperclassMethod)
            },
            TokenType::LeftParen => match expression(after(rest, 1), counter) {
                Ok(inner) => if starts(after(rest, 1 + inner.used), TokenType::RightParen) {
                    Ok(
                        Parsed {
                            value: ExprTree {
                                id: inner.counter,
                                kind: ExprKindTree::Grouping { expr: Box::new(inner.value) },
                            },
                            used: inner.used + 2,
                            counter: inner.counter + 1,
                        },
                    )
                } else {
                    Err(SyntaxError::ExpectedRightParen)
                },
                Err(e) => Err(e),
            },
            _ => Err(SyntaxError::UnexpectedToken),
        }
    }
}

/// The arguments of a call, separated by commas, after `found` arguments
/// were read with `used` tokens.
#[verifier::opaque]
pub open spec fn arguments(rest: Input, counter: nat, found: Seq<ExprTree>, used: nat) -> Result<
    Parsed<Seq<ExprTree>>,
    SyntaxError,
>
    decreases rest.left(), 19nat,
{
    match expression(rest, counter) {
        Ok(arg) => {
            let tail = after(rest, arg.used);
            if starts(tail, TokenType::Comma) {
                arguments(after(tail, 1), arg.counter, found.push(arg.value), used + arg.used + 1)
            } else {
                Ok(
                    Parsed {
                        value: found.push(arg.value),
                        used: used + arg.used,
                        counter: arg.counter,
                    },
                )
            }
        },
        Err(e) => Err(e),
    }
}

/// The rest of a call, after its `(`.
#[verifier::opaque]
pub open spec fn finish_call(rest: Input, counter: nat, callee: ExprTree) -> Result<
    Parsed<ExprTree>,
    SyntaxError,
>
    decreases rest.left(), 20nat,
{
    let args = if starts(rest, TokenType::RightParen) {
        Ok(Parsed { value: Seq::<ExprTree>::empty(), used: 0, counter })
    } else {
        arguments(rest, counter, Seq::empty(), 0)
    };
    match args {
        Ok(list) => if list.value.len() > 255 {
            Err(SyntaxError::TooManyArguments)
        } else if starts(after(rest, list.used), TokenType::RightParen) {
            Ok(
                Parsed {
                    value: ExprTree {
                        id: list.counter,
                        kind: ExprKindTree::Call {
                            callee: Box::new(callee),
                            parens: after(rest, list.used).at(0),
                            args: list.value,
                        },
                    },
                    used: list.used + 1,
                    counter: list.counter + 1,
                },
            )
        } else {
            Err(SyntaxError::ExpectedRightParen)
        },
        Err(e) => Err(e),
    }
}

/// The calls and property reads that follow `expr`, which was read with
/// `used` tokens.
#[verifier::opaque]
pub open spec fn call_rest(rest: Input, counter: nat, expr: ExprTree, used: nat) -> Result<
    Parsed<ExprTree>,
    SyntaxError,
>
    decreases rest.left(), 1nat,
{
    if starts(rest, TokenType::LeftParen) {
        match finish_call(after(rest, 1), counter, expr) {
            Ok(call) => call_rest(
                after(rest, 1 + call.used),
                call.counter,
                call.value,
                used + 1 + call.used,
            ),
            Err(e) => Err(e),
        }
    } else if starts(rest, TokenType::Dot) {
        if starts(after(rest, 1), TokenType::Identifier) {
            call_rest(
                after(rest, 2),
                counter + 1,
                ExprTree {
                    id: counter,
                    kind: ExprKindTree::Get { name: rest.at(1).lexeme, object: Box::new(expr) },
                },
                used + 2,
            )
        } else {
            Err(SyntaxError::ExpectedPropertyName)
        }
    } else {
        Ok(Parsed { value: expr, used, counter })
    }
}

/// A primary expression followed by any number of calls and property
/// reads.
#[verifier::opaque]
pub open spec fn call(rest: Input, counter: nat) -> Result<Parsed<ExprTree>, SyntaxError>
    decreases rest.left(), 2nat,
{
    match primary(rest, counter) {
        Ok(first) => call_rest(after(rest, first.used), first.counter, first.value, first.used),
        Err(e) => Err(e),
    }
}

/// Any number of `!` and `-`, then a call expression.
#[verifier::opaque]
pub open spec fn unary(rest: Input, counter: nat) -> Result<Parsed<ExprTree>, SyntaxError>
    decreases rest.left(), 3nat,
{
    if starts(rest, TokenType::Bang) || starts(rest, TokenType::Minus) {
        match unary(after(rest, 1), counter + 1) {
            Ok(operand) => Ok(
                Parsed {
                    value: ExprTree {
                        id: counter,
                        kind: ExprKindTree::Unary { op: rest.at(0), right: Box::new(operand.value) },
                    },
                    used: operand.used + 1,
                    counter: operand.counter,
                },
            ),
            Err(e) => Err(e),
        }
    } else {
        call(rest, counter)
    }
}

/// An operand of the operators of `level`.
#[verifier::opaque]
pub open spec fn operand(level: Level, rest: Input, counter: nat) -> Result<
    Parsed<ExprTree>,
    SyntaxError,
>
    decreases rest.left(), level.rank() - 1,
{
    match level {
        Level::Equality => binary(Level::Comparison, rest, counter),
        Level::Comparison => binary(Level::Term, rest, counter),
        Level::Term => binary(Level::Factor, rest, counter),
        Level::Factor => unary(rest, counter),
    }
}

/// The operators of `level` and their right operands that follow `left`,
/// which was read with `used` tokens.
#[verifier::opaque]
pub open spec fn binary_rest(
    level: Level,
    rest: Input,
    counter: nat,
    left: ExprTree,
    used: nat,
) -> Result<Parsed<ExprTree>, SyntaxError>
    decreases rest.left(), 0nat,
{
    if rest.left() > 0 && level.has(rest.at(0).typ) {
        match operand(level, after(rest, 1), counter) {
            Ok(right) => binary_rest(
                level,
                after(rest, 1 + right.used),
                right.counter + 1,
                ExprTree {
                    id: right.counter,
                    kind: ExprKindTree::Binary {
                        left: Box::new(left),
                        op: rest.at(0),
                        right: Box::new(right.value),
                    },
                },
                used + 1 + right.used,
            ),
            Err(e) => Err(e),
        }
    } else {
        Ok(Parsed { value: left, used, counter })
    }
}

/// Operands of `level` joined by operators of `level`, grouped from the
/// left.
#[verifier::opaque]
pub open spec fn binary(level: Level, rest: Input, counter: nat) -> Result<
    Parsed<ExprTree>,
    SyntaxError,
>
    decreases rest.left(), level.rank(),
{
    match operand(level, rest, counter) {
        Ok(left) => binary_rest(level, after(rest, left.used), left.counter, left.value, left.used),
        Err(e) => Err(e),
    }
}

/// The `and`s and their right operands that follow `left`.
#[verifier::opaque]
pub open spec fn and_rest(rest: Input, counter: nat, left: ExprTree, used: nat) -> Result<
    Parsed<ExprTree>,
    SyntaxError,
>
    decreases rest.left(), 0nat,
{
    if starts(rest, TokenType::And) {
        match binary(Level::Equality, after(rest, 1), counter) {
            Ok(right) => and_rest(
                after(rest, 1 + right.used),
                right.counter + 1,
                ExprTree {
                    id: right.counter,
                    kind: ExprKindTree::Logical {
                        left: Box::new(left),
                        op: rest.at(0),
                        right: Box::new(right.value),
                    },
                },
                used + 1 + right.used,
            ),
            Err(e) => Err(e),
        }
    } else {
        Ok(Parsed { value: left, used, counter })
    }
}

/// Equalities joined by `and`.
#[verifier::opaque]
pub open spec fn and(rest: Input, counter: nat) -> Result<Parsed<ExprTree>, SyntaxError>
    decreases rest.left(), 14nat,
{
    match binary(Level::Equality, rest, counter) {
        Ok(left) => and_rest(after(rest, left.used), left.counter, left.value, left.used),
        Err(e) => Err(e),
    }
}

/// The `or`s and their right operands that follow `left`.
#[verifier::opaque]
pub open spec fn or_rest(rest: Input, counter: nat, left: ExprTree, used: nat) -> Result<
    Parsed<ExprTree>,
    SyntaxError,
>
    decreases rest.left(), 0nat,
{
    if starts(rest, TokenType::Or) {
        match and(after(rest, 1), counter) {
            Ok(right) => or_rest(
                after(rest, 1 + right.used),
                right.counter + 1,
                ExprTree {
                    id: right.counter,
                    kind: ExprKindTree::Logical {
                        left: Box::new(left),
                        op: rest.at(0),
                        right: Box::new(right.value),
                    },
                },
                used + 1 + right.used,
            ),
            Err(e) => Err(e),
        }
    } else {
        Ok(Parsed { value: left, used, counter })
    }
}

/// Conjunctions joined by `or`.
#[verifier::opaque]
pub open spec fn or(rest: Input, counter: nat) -> Result<Parsed<ExprTree>, SyntaxError>
    decreases rest.left(), 16nat,
{
    match and(rest, counter) {
        Ok(left) => or_rest(after(rest, left.used), left.counter, left.value, left.used),
        Err(e) => Err(e),
    }
}

/// An `or` expression, or an assignment of an assignment expression to a
/// variable or a property.
#[verifier::opaque]
pub open spec fn assignment(rest: Input, counter: nat) -> Result<
    Parsed<ExprTree>,
    SyntaxError,
>
    decreases rest.left(), 17nat,
{
    match or(rest, counter) {
        Ok(target) => if starts(after(rest, target.used), TokenType::Equal) {
            match assignment(after(rest, target.used + 1), target.counter) {
                Ok(value) => match target.value.kind {
                    ExprKindTree::Var { name } => Ok(
                        Parsed {
                            value: ExprTree {
                                id: value.counter,
                                kind: ExprKindTree::Assign { name, expr: Box::new(value.value) },
                            },
                            used: target.used + 1 + value.used,
                            counter: value.counter + 1,
                        },
                    ),
                    ExprKindTree::Get { name, object } => Ok(
                        Parsed {
                            value: ExprTree {
                                id: value.counter,
                                kind: ExprKindTree::Put {
                                    object,
                                    name,
                                    value: Box::new(value.value),
                                },
                            },
                            used: target.used + 1 + value.used,
                            counter: value.counter + 1,
                        },
                    ),
                    _ => Err(SyntaxError::InvalidAssignmentTarget),
                },
                Err(e) => Err(e),
            }
        } else {
            Ok(target)
        },
        Err(e) => Err(e),
    }
}

/// An expression.
#[verifier::opaque]
pub open spec fn expression(rest: Input, counter: nat) -> Result<
    Parsed<ExprTree>,
    SyntaxError,
>
    decreases rest.left(), 18nat,
{
    assignment(rest, counter)
}

/// An expression and the `;` that ends it.
#[verifier::opaque]
pub open spec fn terminated(rest: Input, counter: nat) -> Result<
    Parsed<ExprTree>,
    SyntaxError,
>
    decreases rest.left(), 19nat,
{
    match expression(rest, counter) {
        Ok(e) => if starts(after(rest, e.used), TokenType::Semicolon) {
            Ok(Parsed { value: e.value, used: e.used + 1, counter: e.counter })
        } else {
            Err(SyntaxError::ExpectedSemicolon)
        },
        Err(e) => Err(e),
    }
}

/// An expression in parentheses, as after `if` and `while`.
#[verifier::opaque]
pub open spec fn condition(rest: Input, counter: nat) -> Result<
    Parsed<ExprTree>,
    SyntaxError,
>
    decreases rest.left(), 19nat,
{
    if !starts(rest, TokenType::LeftParen) {
        Err(SyntaxError::ExpectedLeftParen)
    } else {
        match expression(after(rest, 1), counter) {
            Ok(e) => if starts(after(rest, 1 + e.used), TokenType::RightParen) {
                Ok(Parsed { value: e.value, used: e.used + 2, counter: e.counter })
            } else {
                Err(SyntaxError::ExpectedRightParen)
            },
            Err(e) => Err(e),
        }
    }
}

/// The rest of an `if` statement, after `if`.
#[verifier::opaque]
pub open spec fn if_statement(rest: Input, counter: nat) -> Result<
    Parsed<StmtTree>,
    SyntaxError,
>
    decreases rest.left(), 27nat,
{
    match condition(rest, counter) {
        Ok(c) => match statement(after(rest, c.used), c.counter) {
            Ok(t) => {
                let tail = after(rest, c.used + t.used);
                if starts(tail, TokenType::Else) {
                    match statement(after(tail, 1), t.counter) {
                        Ok(e) => Ok(
                            Parsed {
                                value: StmtTree::If {
                                    condition: c.value,
                                    then_branch: Box::new(t.value),
                                    else_branch: Some(Box::new(e.value)),
                                },
                                used: c.used + t.used + 1 + e.used,
                                counter: e.counter,
                            },
                        ),
                        Err(e) => Err(e),
                    }
                } else {
                    Ok(
                        Parsed {
                            value: StmtTree::If {
                                condition: c.value,
                                then_branch: Box::new(t.value),
                                else_branch: None,
                            },
                            used: c.used + t.used,
                            counter: t.counter,
                        },
                    )
                }
            },
            Err(e) => Err(e),
        },
        Err(e) => Err(e),
    }
}

/// The rest of a `return` statement, after `return`: `;` alone, which
/// returns no value, or the expression to return and its `;`.
#[verifier::opaque]
pub open spec fn return_statement(rest: Input, counter: nat) -> Result<
    Parsed<StmtTree>,
    SyntaxError,
>
    decreases rest.left(), 27nat,
{
    if starts(rest, TokenType::Semicolon) {
        Ok(Parsed { value: StmtTree::Return { value: None }, used: 1, counter })
    } else {
        match terminated(rest, counter) {
            Ok(e) => Ok(
                Parsed {
                    value: StmtTree::Return { value: Some(e.value) },
                    used: e.used,
                    counter: e.counter,
                },
            ),
            Err(e) => Err(e),
        }
    }
}

/// The rest of a `while` statement, after `while`.
#[verifier::opaque]
pub open spec fn while_statement(rest: Input, counter: nat) -> Result<
    Parsed<StmtTree>,
    SyntaxError,
>
    decreases rest.left(), 27nat,
{
    match condition(rest, counter) {
        Ok(c) => match statement(after(rest, c.used), c.counter) {
            Ok(b) => Ok(
                Parsed {
                    value: StmtTree::While { condition: c.value, body: Box::new(b.value) },
                    used: c.used + b.used,
                    counter: b.counter,
                },
            ),
            Err(e) => Err(e),
        },
        Err(e) => Err(e),
    }
}

/// The first clause of a `for` statement: `;` alone, a variable
/// declaration with its `;`, or an expression.
#[verifier::opaque]
pub open spec fn for_initializer(rest: Input, counter: nat) -> Result<
    Parsed<Option<DeclTree>>,
    SyntaxError,
>
    decreases rest.left(), 23nat,
{
    if starts(rest, TokenType::Semicolon) {
        Ok(Parsed { value: None, used: 1, counter })
    } else if starts(rest, TokenType::Var) {
        match declaration(rest, counter) {
            Ok(d) => Ok(Parsed { value: Some(d.value), used: d.used, counter: d.counter }),
            Err(e) => Err(e),
        }
    } else {
        match expression(rest, counter) {
            Ok(e) => Ok(
                Parsed {
                    value: Some(DeclTree::Statement(StmtTree::Expr(e.value))),
                    used: e.used,
                    counter: e.counter,
                },
            ),
            Err(e) => Err(e),
        }
    }
}

/// A clause of a `for` statement that may be empty: an expression unless
/// the next token is `end`, then `end`.
#[verifier::opaque]
pub open spec fn for_clause(rest: Input, counter: nat, end: TokenType) -> Result<
    Parsed<Option<ExprTree>>,
    SyntaxError,
>
    decreases rest.left(), 19nat,
{
    let missing = if end == TokenType::Semicolon {
        SyntaxError::ExpectedSemicolon
    } else {
        SyntaxError::ExpectedRightParen
    };
    if rest.left() > 0 && rest.at(0).typ != end {
        match expression(rest, counter) {
            Ok(e) => if starts(after(rest, e.used), end) {
                Ok(Parsed { value: Some(e.value), used: e.used + 1, counter: e.counter })
            } else {
                Err(missing)
            },
            Err(e) => Err(e),
        }
    } else if starts(rest, end) {
        Ok(Parsed { value: None, used: 1, counter })
    } else {
        Err(missing)
    }
}

/// The loop that a `for` statement stands for: the body, followed by the
/// increment if there is one, run while the condition holds (always, if
/// there is none), after the initializer if there is one. `id` is the id of
/// the condition `true` that stands in for a missing one.
pub open spec fn for_loop(
    initializer: Option<DeclTree>,
    condition: Option<ExprTree>,
    increment: Option<ExprTree>,
    body: StmtTree,
    id: nat,
) -> StmtTree {
    let stepped = match increment {
        Some(step) => StmtTree::Block(
            seq![DeclTree::Statement(body), DeclTree::Statement(StmtTree::Expr(step))],
        ),
        None => body,
    };
    let test = match condition {
        Some(c) => c,
        None => literal(id, LiteralView::Boolean(true)),
    };
    let looped = StmtTree::While { condition: test, body: Box::new(stepped) };
    match initializer {
        Some(first) => StmtTree::Block(seq![first, DeclTree::Statement(looped)]),
        None => looped,
    }
}

/// The rest of a `for` statement, after `for`.
#[verifier::opaque]
pub open spec fn for_statement(rest: Input, counter: nat) -> Result<
    Parsed<StmtTree>,
    SyntaxError,
>
    decreases rest.left(), 27nat,
{
    if !starts(rest, TokenType::LeftParen) {
        Err(SyntaxError::ExpectedLeftParen)
    } else {
        match for_initializer(after(rest, 1), counter) {
            Ok(i) => match for_clause(after(rest, 1 + i.used), i.counter, TokenType::Semicolon) {
                Ok(c) => match for_clause(
                    after(rest, 1 + i.used + c.used),
                    c.counter,
                    TokenType::RightParen,
                ) {
                    Ok(s) => match statement(after(rest, 1 + i.used + c.used + s.used), s.counter) {
                        Ok(b) => Ok(
                            Parsed {
                                value: for_loop(i.value, c.value, s.value, b.value, b.counter),
                                used: 1 + i.used + c.used + s.used + b.used,
                                counter: b.counter + 1,
                            },
                        ),
                        Err(e) => Err(e),
                    },
                    Err(e) => Err(e),
                },
                Err(e) => Err(e),
            },
            Err(e) => Err(e),
        }
    }
}

/// The declarations up to the `}` that closes a block, after `found` were
/// read with `used` tokens; the `}` is taken as well.
#[verifier::opaque]
pub open spec fn block_rest(rest: Input, counter: nat, found: Seq<DeclTree>, used: nat) -> Result<
    Parsed<Seq<DeclTree>>,
    SyntaxError,
>
    decreases rest.left(), 23nat,
{
    if rest.left() == 0 {
        Err(SyntaxError::ExpectedRightBrace)
    } else if rest.at(0).typ == TokenType::RightBrace {
        Ok(Parsed { value: found, used: used + 1, counter })
    } else {
        match declaration(rest, counter) {
            Ok(d) => if d.used == 0 {
                Err(SyntaxError::Stuck)
            } else {
                block_rest(after(rest, d.used), d.counter, found.push(d.value), used + d.used)
            },
            Err(e) => Err(e),
        }
    }
}

/// A statement read after the keyword that it starts with.
pub open spec fn prefixed(parsed: Result<Parsed<StmtTree>, SyntaxError>) -> Result<
    Parsed<StmtTree>,
    SyntaxError,
> {
    match parsed {
        Ok(s) => Ok(Parsed { value: s.value, used: s.used + 1, counter: s.counter }),
        Err(e) => Err(e),
    }
}

/// A statement.
#[verifier::opaque]
pub open spec fn statement(rest: Input, counter: nat) -> Result<
    Parsed<StmtTree>,
    SyntaxError,
>
    decreases rest.left(), 21nat,
{
    let more = after(rest, 1);
    if starts(rest, TokenType::If) {
        prefixed(if_statement(more, counter))
    } else if starts(rest, TokenType::Print) {
        match terminated(more, counter) {
            Ok(e) => Ok(
                Parsed { value: StmtTree::Print(e.value), used: e.used + 1, counter: e.counter },
            ),
            Err(e) => Err(e),
        }
    } else if starts(rest, TokenType::Return) {
        prefixed(return_statement(more, counter))
    } else if starts(rest, TokenType::For) {
        prefixed(for_statement(more, counter))
    } else if starts(rest, TokenType::While) {
        prefixed(while_statement(more, counter))
    } else if starts(rest, TokenType::LeftBrace) {
        match block_rest(more, counter, Seq::empty(), 0) {
            Ok(b) => Ok(
                Parsed { value: StmtTree::Block(b.value), used: b.used + 1, counter: b.counter },
            ),
            Err(e) => Err(e),
        }
    } else {
        match terminated(rest, counter) {
            Ok(e) => Ok(Parsed { value: StmtTree::Expr(e.value), used: e.used, counter: e.counter }),
            Err(e) => Err(e),
        }
    }
}

/// The parameter names of a function, separated by commas, after `found`
/// were read with `used` tokens.
#[verifier::opaque]
pub open spec fn parameters(rest: Input, counter: nat, found: Seq<TokenView>, used: nat) -> Result<
    Parsed<Seq<TokenView>>,
    SyntaxError,
>
    decreases rest.left(),
{
    if found.len() > 255 {
        Err(SyntaxError::TooManyParameters)
    } else if !starts(rest, TokenType::Identifier) {
        Err(SyntaxError::ExpectedParameterName)
    } else if starts(after(rest, 1), TokenType::Comma) {
        parameters(after(rest, 2), counter, found.push(rest.at(0)), used + 2)
    } else {
        Ok(Parsed { value: found.push(rest.at(0)), used: used + 1, counter })
    }
}

/// A function or a method: name, parameters in parentheses, body in
/// braces.
#[verifier::opaque]
pub open spec fn function(rest: Input, counter: nat) -> Result<
    Parsed<FunctionTree>,
    SyntaxError,
>
    decreases rest.left(), 24nat,
{
    if !starts(rest, TokenType::Identifier) {
        Err(SyntaxError::ExpectedFunctionName)
    } else if !starts(after(rest, 1), TokenType::LeftParen) {
        Err(SyntaxError::ExpectedLeftParen)
    } else {
        let listed = if starts(after(rest, 2), TokenType::RightParen) {
            Ok(Parsed { value: Seq::<TokenView>::empty(), used: 0, counter })
        } else {
            parameters(after(rest, 2), counter, Seq::empty(), 0)
        };
        match listed {
            Ok(p) => if !starts(after(rest, 2 + p.used), TokenType::RightParen) {
                Err(SyntaxError::ExpectedRightParen)
            } else if !starts(after(rest, 3 + p.used), TokenType::LeftBrace) {
                Err(SyntaxError::ExpectedLeftBrace)
            } else {
                match block_rest(after(rest, 4 + p.used), counter, Seq::empty(), 0) {
                    Ok(b) => Ok(
                        Parsed {
                            value: FunctionTree {
                                identifier: rest.at(0).lexeme,
                                parameters: p.value,
                                body: b.value,
                            },
                            used: 4 + p.used + b.used,
                            counter: b.counter,
                        },
                    ),
                    Err(e) => Err(e),
                }
            },
            Err(e) => Err(e),
        }
    }
}

/// The methods up to the `}` that closes a class, after `found` were read
/// with `used` tokens; the `}` is taken as well.
#[verifier::opaque]
pub open spec fn methods_rest(rest: Input, counter: nat, found: Seq<FunctionTree>, used: nat) -> Result<
    Parsed<Seq<FunctionTree>>,
    SyntaxError,
>
    decreases rest.left(), 25nat,
{
    if rest.left() == 0 {
        Err(SyntaxError::ExpectedFunctionName)
    } else if starts(rest, TokenType::RightBrace) {
        Ok(Parsed { value: found, used: used + 1, counter })
    } else {
        match function(rest, counter) {
            Ok(m) => if m.used == 0 {
                Err(SyntaxError::Stuck)
            } else {
                methods_rest(after(rest, m.used), m.counter, found.push(m.value), used + m.used)
            },
            Err(e) => Err(e),
        }
    }
}

/// The rest of a class declaration, after `class`.
#[verifier::opaque]
pub open spec fn class(rest: Input, counter: nat) -> Result<Parsed<ClassTree>, SyntaxError>
    decreases rest.left(), 26nat,
{
    if !starts(rest, TokenType::Identifier) {
        Err(SyntaxError::ExpectedClassName)
    } else {
        let inherits = starts(after(rest, 1), TokenType::Less);
        if inherits && !starts(after(rest, 2), TokenType::Identifier) {
            Err(SyntaxError::ExpectedSuperclassName)
        } else {
            let header: nat = if inherits {
                3
            } else {
                1
            };
            let superclass = if inherits {
                Some(ExprTree { id: counter, kind: ExprKindTree::Var { name: rest.at(2).lexeme } })
            } else {
                None
            };
            let first: nat = if inherits {
                counter + 1
            } else {
                counter
            };
            if !starts(after(rest, header), TokenType::LeftBrace) {
                Err(SyntaxError::ExpectedLeftBrace)
            } else {
                match methods_rest(after(rest, header + 1), first, Seq::empty(), 0) {
                    Ok(m) => Ok(
                        Parsed {
                            value: ClassTree { name: rest.at(0).lexeme, methods: m.value, superclass },
                            used: header + 1 + m.used,
                            counter: m.counter,
                        },
                    ),
                    Err(e) => Err(e),
                }
            }
        }
    }
}

/// A declaration: of a variable, a function or a class, or a statement.
#[verifier::opaque]
pub open spec fn declaration(rest: Input, counter: nat) -> Result<
    Parsed<DeclTree>,
    SyntaxError,
>
    decreases rest.left(), 22nat,
{
    let more = after(rest, 1);
    if starts(rest, TokenType::Var) {
        if !starts(more, TokenType::Identifier) {
            Err(SyntaxError::ExpectedVariableName)
        } else if !starts(after(rest, 2), TokenType::Equal) {
            Err(SyntaxError::ExpectedInitializer)
        } else {
            match terminated(after(rest, 3), counter) {
                Ok(e) => Ok(
                    Parsed {
                        value: DeclTree::Var { identifier: rest.at(1).lexeme, expression: e.value },
                        used: 3 + e.used,
                        counter: e.counter,
                    },
                ),
                Err(e) => Err(e),
            }
        }
    } else if starts(rest, TokenType::Fun) {
        match function(more, counter) {
            Ok(f) => Ok(
                Parsed {
                    value: DeclTree::Statement(StmtTree::FunctionDecl(f.value)),
                    used: f.used + 1,
                    counter: f.counter,
                },
            ),
            Err(e) => Err(e),
        }
    } else if starts(rest, TokenType::Class) {
        match class(more, counter) {
            Ok(c) => Ok(
                Parsed {
                    value: DeclTree::Statement(StmtTree::ClassDecl(c.value)),
                    used: c.used + 1,
                    counter: c.counter,
                },
            ),
            Err(e) => Err(e),
        }
    } else {
        match statement(rest, counter) {
            Ok(s) => Ok(
                Parsed { value: DeclTree::Statement(s.value), used: s.used, counter: s.counter },
            ),
            Err(e) => Err(e),
        }
    }
}

/// The declarations up to the end of the tokens, after `found` were read
/// with `used` tokens.
#[verifier::opaque]
pub open spec fn program_rest(rest: Input, counter: nat, found: Seq<DeclTree>, used: nat) -> Result<
    Parsed<Seq<DeclTree>>,
    SyntaxError,
>
    decreases rest.left(), 28nat,
{
    if rest.left() == 0 {
        Ok(Parsed { value: found, used, counter })
    } else {
        match declaration(rest, counter) {
            Ok(d) => if d.used == 0 {
                Err(SyntaxError::Stuck)
            } else {
                program_rest(after(rest, d.used), d.counter, found.push(d.value), used + d.used)
            },
            Err(e) => Err(e),
        }
    }
}

/// The program that the tokens left spell.
pub open spec fn program(rest: Input, counter: nat) -> Result<Parsed<Seq<DeclTree>>, SyntaxError> {
    program_rest(rest, counter, Seq::empty(), 0)
}

impl SyntaxError {
    /// What is wrong with the tokens, in words.
    pub open spec fn spec_message(self) -> Seq<char> {
        match self {
            SyntaxError::UnexpectedEnd => "unexpected end of token stream"@,
            SyntaxError::UnexpectedToken => "unexpected token"@,
            SyntaxError::ExpectedVariableName => "expected identifier"@,
            SyntaxError::ExpectedInitializer => "expected '=' after VAR"@,
            SyntaxError::ExpectedSemicolon => "expected ';'"@,
            SyntaxError::ExpectedLeftParen => "expected '('"@,
            SyntaxError::ExpectedRightParen => "expected ')'"@,
            SyntaxError::ExpectedLeftBrace => "expected '{'"@,
            SyntaxError::ExpectedRightBrace => "expected '}'"@,
            SyntaxError::ExpectedClassName => "invalid syntax: expected identifier"@,
            SyntaxError::ExpectedSuperclassName => "invalid syntax: expected superclass name"@,
            SyntaxError::ExpectedSuperclassMethod => "expected '.' and a method name after 'super'"@,
            SyntaxError::ExpectedFunctionName => "expected function name"@,
            SyntaxError::ExpectedParameterName => "expected parameter name"@,
            SyntaxError::ExpectedPropertyName => "expect property name after '.'"@,
            SyntaxError::InvalidAssignmentTarget => "invalid assignment target"@,
            SyntaxError::TooManyArguments => "can't have more than 255 arguments!"@,
            SyntaxError::TooManyParameters => "can't define function with more than 255 params"@,
            SyntaxError::Stuck => "the parser made no progress"@,
        }
    }

    /// What is wrong with the tokens, in words.
    pub fn message(&self) -> (text: String)
        ensures
            text@ == self.spec_message(),
    {
        match self {
            SyntaxError::UnexpectedEnd => String::from_str("unexpected end of token stream"),
            SyntaxError::UnexpectedToken => String::from_str("unexpected token"),
            SyntaxError::ExpectedVariableName => String::from_str("expected identifier"),
            SyntaxError::ExpectedInitializer => String::from_str("expected '=' after VAR"),
            SyntaxError::ExpectedSemicolon => String::from_str("expected ';'"),
            SyntaxError::ExpectedLeftParen => String::from_str("expected '('"),
            SyntaxError::ExpectedRightParen => String::from_str("expected ')'"),
            SyntaxError::ExpectedLeftBrace => String::from_str("expected '{'"),
            SyntaxError::ExpectedRightBrace => String::from_str("expected '}'"),
            SyntaxError::ExpectedClassName => String::from_str(
                "invalid syntax: expected identifier",
            ),
            SyntaxError::ExpectedSuperclassName => String::from_str(
                "invalid syntax: expected superclass name",
            ),
            SyntaxError::ExpectedSuperclassMethod => String::from_str(
                "expected '.' and a method name after 'super'",
            ),
            SyntaxError::ExpectedFunctionName => String::from_str("expected function name"),
            SyntaxError::ExpectedParameterName => String::from_str("expected parameter name"),
            SyntaxError::ExpectedPropertyName => String::from_str("expect property name after '.'"),
            SyntaxError::InvalidAssignmentTarget => String::from_str("invalid assignment target"),
            SyntaxError::TooManyArguments => String::from_str(
                "can't have more than 255 arguments!",
            ),
            SyntaxError::TooManyParameters => String::from_str(
                "can't define function with more than 255 params",
            ),
            SyntaxError::Stuck => String::from_str("the parser made no progress"),
        }
    }
}

} // verus!
