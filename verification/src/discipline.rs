//! Calls find the operands they left.
//!
//! While a call is being prepared, its callee and the arguments evaluated
//! so far lie on the operand stack, and the frame of each running call
//! remembers how many operands it found. This module proves that the
//! operands a frame counts on are always there, and, with what `validity`
//! proves, that a step can fail on an inconsistency only where an
//! annotation of the resolver does not match the scopes.

use vstd::prelude::*;
use crate::class::{constructor_arity, find_method, property, with_instance, ClassView};
use crate::eval::{binary, equality, literal, logical, unary, Outcome};
use crate::heap::HeapView;
use crate::machine::rendered;
use crate::scanner::TokenType;
use crate::callable::bound;
use crate::environment::{ancestor, lookup_at};
use crate::machine::{cut, Control, Event, Frame, Machine};
use crate::syntax::{Declaration, Expr, ExprKind, Program, Stmt};
use crate::types::{Callable, Object, RuntimeError};
use crate::validity::{
    callable, theorem_valid_value_prints, theorem_valid_values_compare, valid, valid_frame,
    valid_heap, valid_object, valid_values,
};

verus! {

/// Number of operands that a frame counts on: the callee and the arguments
/// evaluated before the one it waits for.
pub open spec fn need(frame: Frame) -> nat {
    match frame {
        Frame::Argument { index, .. } => (index + 1) as nat,
        _ => 0,
    }
}

/// Number of operands that the lowest `n` frames count on. The frame of a
/// running call counts on the operands it found.
pub open spec fn floor(frames: Seq<Frame>, n: nat) -> nat
    decreases n,
{
    if n == 0 || n > frames.len() {
        0
    } else {
        match frames[n - 1] {
            Frame::Call { base, .. } => base as nat,
            frame => floor(frames, (n - 1) as nat) + need(frame),
        }
    }
}

/// Whether the operands that the frames count on are there, and the frame
/// of each running call found at least the operands that the frames below
/// it count on.
pub open spec fn disciplined(m: Machine) -> bool {
    &&& m.operands.len() >= floor(m.frames, m.frames.len())
    &&& frames_disciplined(m.frames)
}

/// Whether the frame of each running call found at least the operands that
/// the frames below it count on.
pub open spec fn frames_disciplined(frames: Seq<Frame>) -> bool {
    forall|j: int|
        0 <= j < frames.len() && (#[trigger] frames[j]) is Call ==> frames[j]->base >= floor(
            frames,
            j as nat,
        )
}

/// What the lowest frames count on does not depend on the frames above
/// them.
pub proof fn lemma_floor_below<'a>(frames: Seq<Frame<'a>>, other: Seq<Frame<'a>>, n: nat)
    requires
        n <= frames.len(),
        n <= other.len(),
        forall|i: int| 0 <= i < n ==> frames[i] == other[i],
    ensures
        floor(frames, n) == floor(other, n),
    decreases n,
{
    if n > 0 {
        lemma_floor_below(frames, other, (n - 1) as nat);
    }
}

/// A new interpreter counts on no operand.
pub proof fn theorem_initial_state_is_disciplined()
    ensures
        disciplined(Machine::initial()),
{
}

/// A program about to run counts on no operand.
pub proof fn theorem_loaded_state_is_disciplined<'a>(m: Machine<'a>, program: &'a Program)
    ensures
        disciplined(m.load(program)),
{
    reveal_with_fuel(floor, 2);
}

/// The frames stay disciplined with one more frame that is not the frame
/// of a call, and count on as many operands more as that frame does.
pub proof fn lemma_push_frame<'a>(frames: Seq<Frame<'a>>, frame: Frame<'a>)
    requires
        frames_disciplined(frames),
        !(frame is Call),
    ensures
        frames_disciplined(frames.push(frame)),
        floor(frames.push(frame), frames.len() + 1) == floor(frames, frames.len()) + need(frame),
{
    let more = frames.push(frame);
    lemma_floor_below(frames, more, frames.len());
    assert forall|j: int| 0 <= j < more.len() && (#[trigger] more[j]) is Call implies more[j]->base
        >= floor(more, j as nat) by {
        lemma_floor_below(frames, more, j as nat);
        assert(more[j] == frames[j]);
    }
}

/// The frames stay disciplined with the frame of a call that found at
/// least the operands they count on, and then count on the operands it
/// found.
pub proof fn lemma_push_call<'a>(frames: Seq<Frame<'a>>, frame: Frame<'a>)
    requires
        frames_disciplined(frames),
        frame is Call,
        frame->base >= floor(frames, frames.len()),
    ensures
        frames_disciplined(frames.push(frame)),
        floor(frames.push(frame), frames.len() + 1) == frame->base,
{
    let more = frames.push(frame);
    assert forall|j: int| 0 <= j < more.len() && (#[trigger] more[j]) is Call implies more[j]->base
        >= floor(more, j as nat) by {
        lemma_floor_below(frames, more, j as nat);
        if j < frames.len() {
            assert(more[j] == frames[j]);
        }
    }
}

/// The frames stay disciplined without their topmost frame, and count on
/// as many operands fewer as that frame did; below the frame of a call,
/// they count on no more than that frame found.
pub proof fn lemma_pop_frame<'a>(frames: Seq<Frame<'a>>)
    requires
        frames_disciplined(frames),
        frames.len() > 0,
    ensures
        frames_disciplined(frames.drop_last()),
        !(frames.last() is Call) ==> floor(frames, frames.len()) == floor(
            frames.drop_last(),
            (frames.len() - 1) as nat,
        ) + need(frames.last()),
        frames.last() is Call ==> floor(frames, frames.len()) == frames.last()->base
            && frames.last()->base >= floor(frames.drop_last(), (frames.len() - 1) as nat),
{
    let rest = frames.drop_last();
    lemma_floor_below(frames, rest, rest.len());
    assert forall|j: int| 0 <= j < rest.len() && (#[trigger] rest[j]) is Call implies rest[j]->base
        >= floor(rest, j as nat) by {
        lemma_floor_below(frames, rest, j as nat);
        assert(rest[j] == frames[j]);
    }
    if frames.last() is Call {
        assert(frames[frames.len() - 1] is Call);
    }
}

/// Starting the body of a closure keeps the operands in order.
proof fn lemma_call_function_disciplined(m: Machine, function: usize, args: Seq<Object>)
    requires
        frames_disciplined(m.frames),
        m.operands.len() >= floor(m.frames, m.frames.len()),
        m.operands.len() <= usize::MAX,
    ensures
        disciplined(m.call_function(function, args)),
{
    let call = Frame::Call { function, caller: m.environment, base: m.operands.len() as usize };
    lemma_push_call(m.frames, call);
    let n = m.call_function(function, args);
    let block = n.frames.last();
    assert(n.frames == m.frames.push(call).push(block));
    lemma_push_frame(m.frames.push(call), block);
}

/// Calling keeps the operands in order and finds the operands it looks
/// for.
proof fn lemma_invoke_disciplined(m: Machine, count: nat)
    requires
        frames_disciplined(m.frames),
        m.operands.len() >= floor(m.frames, m.frames.len()) + count + 1,
        m.operands.len() <= usize::MAX + 1,
    ensures
        disciplined(m.invoke(count)),
{
    let base = m.operands.len() - count - 1;
    let callee = m.operands[base];
    let args = m.operands.subrange(base + 1, m.operands.len() as int);
    let n = Machine { operands: m.operands.take(base), ..m };
    match callee {
        Object::Callable(Callable::Function(f)) => {
            lemma_call_function_disciplined(n, f, args);
        },
        Object::Class(c) => {
            let instance = n.heap.instances.len() as usize;
            let made = with_instance(n.heap, c);
            match find_method(made.classes, c as int, "init"@) {
                Some(f) => {
                    let construct = Frame::Construct { instance };
                    lemma_push_frame(n.frames, construct);
                    let ready = Machine {
                        heap: bound(made, f as int, instance),
                        frames: n.frames.push(construct),
                        ..n
                    };
                    lemma_call_function_disciplined(ready, made.functions.len() as usize, args);
                },
                None => {},
            }
        },
        _ => {},
    }
}

/// Handing a value to a frame keeps the operands in order.
proof fn lemma_apply_disciplined(m: Machine, frame: Frame, value: Object)
    requires
        frames_disciplined(m.frames),
        !(frame is Call),
        m.operands.len() >= floor(m.frames, m.frames.len()) + need(frame),
        m.operands.len() <= usize::MAX,
    ensures
        disciplined(m.apply(frame, value)),
{
    let n = m.apply(frame, value);
    match frame {
        Frame::Left { op, right } => {
            lemma_push_frame(m.frames, Frame::Right { op, left: value });
        },
        Frame::Callee { args } => {
            let pushed = Machine { operands: m.operands.push(value), ..m };
            if args@.len() == 0 {
                lemma_invoke_disciplined(pushed, 0);
            } else {
                lemma_push_frame(m.frames, Frame::Argument { args, index: 0 });
            }
        },
        Frame::Argument { args, index } => {
            let pushed = Machine { operands: m.operands.push(value), ..m };
            if index + 1 < args@.len() {
                lemma_push_frame(m.frames, Frame::Argument { args, index: (index + 1) as usize });
            } else {
                lemma_invoke_disciplined(pushed, args@.len());
            }
        },
        Frame::PutObject { name, value: source } => {
            match value {
                Object::ClassInstance(i) => {
                    lemma_push_frame(m.frames, Frame::PutValue { name, instance: i });
                },
                _ => {},
            }
        },
        Frame::LoopCondition { condition, body } => {
            lemma_push_frame(m.frames, Frame::LoopBody { condition, body });
        },
        Frame::LoopBody { condition, body } => {
            lemma_push_frame(m.frames, Frame::LoopCondition { condition, body });
        },
        Frame::Block { decls, next, saved } => {
            if next < decls@.len() {
                lemma_push_frame(m.frames, Frame::Block { decls, next: (next + 1) as usize, saved });
                lemma_declare_disciplined(
                    m.push(Frame::Block { decls, next: (next + 1) as usize, saved }),
                    &decls@[next as int],
                );
            }
        },
        Frame::Program { decls, next } => {
            if next < decls@.len() {
                lemma_push_frame(m.frames, Frame::Program { decls, next: (next + 1) as usize });
                lemma_declare_disciplined(
                    m.push(Frame::Program { decls, next: (next + 1) as usize }),
                    &decls@[next as int],
                );
            }
        },
        _ => {},
    }
}

/// Setting out on a declaration changes neither frames nor operands.
proof fn lemma_declare_disciplined(m: Machine, decl: &Declaration)
    requires
        disciplined(m),
    ensures
        disciplined(m.goto(Control::Declare(decl))),
{
}

/// Starting the evaluation of an expression keeps the operands in order.
proof fn lemma_evaluate_disciplined(m: Machine, expr: &Expr)
    requires
        disciplined(m),
    ensures
        disciplined(m.evaluate(expr)),
{
    let n = m.evaluate(expr);
    if n.frames != m.frames {
        let frame = n.frames.last();
        assert(n.frames == m.frames.push(frame));
        lemma_push_frame(m.frames, frame);
    }
}

/// Starting the execution of a statement keeps the operands in order.
proof fn lemma_execute_disciplined(m: Machine, stmt: &Stmt)
    requires
        disciplined(m),
    ensures
        disciplined(m.execute(stmt)),
{
    let n = m.execute(stmt);
    if n.frames != m.frames {
        let frame = n.frames.last();
        assert(n.frames == m.frames.push(frame));
        lemma_push_frame(m.frames, frame);
    }
}

/// Every step keeps the operands in order.
pub proof fn theorem_step_keeps_disciplined(m: Machine, event: Event)
    requires
        disciplined(m),
        m.operands.len() <= usize::MAX,
    ensures
        disciplined(m.step(event)),
{
    match m.control {
        Control::Evaluate(expr) => {
            lemma_evaluate_disciplined(m, expr);
        },
        Control::Execute(stmt) => {
            lemma_execute_disciplined(m, stmt);
        },
        Control::Declare(decl) => {
            match decl {
                Declaration::Var { identifier, .. } => {
                    lemma_push_frame(m.frames, Frame::Define { name: identifier });
                },
                Declaration::Statement(stmt) => {
                    lemma_execute_disciplined(m, stmt);
                },
            }
        },
        Control::Deliver(value) => {
            if m.frames.len() > 0 {
                lemma_pop_frame(m.frames);
                let popped = Machine { frames: m.frames.drop_last(), ..m };
                if m.frames.last() is Call {
                } else {
                    lemma_apply_disciplined(popped, m.frames.last(), value);
                }
            }
        },
        Control::Unwind(value) => {
            if m.frames.len() > 0 {
                lemma_pop_frame(m.frames);
            }
        },
        _ => {},
    }
}

/// A method found on a class is a closure of the stores.
pub proof fn lemma_found_method_exists(heap: HeapView, class: int, name: Seq<char>)
    requires
        valid_heap(heap),
        find_method(heap.classes, class, name) is Some,
    ensures
        find_method(heap.classes, class, name)->0 < heap.functions.len(),
    decreases class,
{
    if 0 <= class < heap.classes.len() {
        if heap.classes[class].methods.contains_key(name) {
        } else {
            match heap.classes[class].superclass {
                Some(s) => {
                    if s < class {
                        lemma_found_method_exists(heap, s as int, name);
                    }
                },
                None => {},
            }
        }
    }
}

/// Whether the step that the state is about to take uses an annotation of
/// the resolver that does not match the scopes: a read or an assignment at
/// a distance at which no scope lies or the name is not defined, or a
/// `super` without its annotation or without the class and the instance
/// where the annotation says.
pub open spec fn annotation_fails(m: Machine) -> bool {
    let scopes = m.heap.scopes;
    let env = m.environment as int;
    match m.control {
        Control::Evaluate(expr) => match &expr.kind {
            ExprKind::Var { name } => m.locals.contains_key(expr.id) && lookup_at(
                scopes,
                env,
                m.locals[expr.id] as nat,
                name@,
            ) is None,
            ExprKind::This { token } => m.locals.contains_key(expr.id) && lookup_at(
                scopes,
                env,
                m.locals[expr.id] as nat,
                token@,
            ) is None,
            ExprKind::Super { .. } => !m.locals.contains_key(expr.id) || m.locals[expr.id] == 0 || !(
            lookup_at(scopes, env, m.locals[expr.id] as nat, "super"@) matches Some(
                Object::Class(_),
            )) || !(lookup_at(scopes, env, (m.locals[expr.id] - 1) as nat, "this"@) matches Some(
                Object::ClassInstance(_),
            )),
            _ => false,
        },
        Control::Deliver(_) => m.frames.len() > 0 && (m.frames.last() matches Frame::Assign {
            id,
            ..
        } && m.locals.contains_key(id) && ancestor(scopes, env, m.locals[id] as nat) is None),
        _ => false,
    }
}

/// An inconsistency is a wrong annotation.
///
/// In a state without dangling handles and with its operands in order, the
/// only step that can end the run on an inconsistency is one that uses an
/// annotation of the resolver that does not match the scopes. No other
/// lookup in the stores can fail.
pub proof fn theorem_inconsistency_is_a_wrong_annotation(m: Machine, event: Event)
    requires
        m.wf(),
        valid(m),
        disciplined(m),
        !(m.control is Faulted),
        m.step(event).control == Control::Faulted(RuntimeError::Inconsistent),
    ensures
        annotation_fails(m),
{
    match m.control {
        Control::Evaluate(expr) => {
            match &expr.kind {
                ExprKind::Super { method, .. } => {
                    if !annotation_fails(m) {
                        let d = m.locals[expr.id] as nat;
                        let found = lookup_at(m.heap.scopes, m.environment as int, d, "super"@);
                        crate::validity::lemma_lookup_at_is_valid(
                            m.heap,
                            m.environment as int,
                            d,
                            "super"@,
                        );
                        let c = found->0->Class_0;
                        if find_method(m.heap.classes, c as int, method@) is Some {
                            lemma_found_method_exists(m.heap, c as int, method@);
                        }
                    }
                },
                _ => {},
            }
        },
        Control::Execute(stmt) => {},
        Control::Declare(decl) => {},
        Control::Deliver(value) => {
            if m.frames.len() > 0 {
                let frame = m.frames.last();
                assert(valid_frame(m.heap, m.frames[m.frames.len() - 1]));
                let popped = Machine { frames: m.frames.drop_last(), ..m };
                lemma_pop_frame(m.frames);
                lemma_apply_consistent(popped, frame, value);
            }
        },
        _ => {},
    }
}

/// Handing a value to a frame fails on an inconsistency only in an
/// assignment whose annotation does not match the scopes.
proof fn lemma_apply_consistent(m: Machine, frame: Frame, value: Object)
    requires
        valid_heap(m.heap),
        valid_frame(m.heap, frame),
        valid_object(m.heap, value),
        forall|i: int| 0 <= i < m.operands.len() ==> valid_object(m.heap, #[trigger] m.operands[i]),
        m.operands.len() >= floor(m.frames, m.frames.len()) + need(frame),
        m.apply(frame, value).control == Control::Faulted(RuntimeError::Inconsistent),
    ensures
        frame matches Frame::Assign { id, .. } && m.locals.contains_key(id) && ancestor(
            m.heap.scopes,
            m.environment as int,
            m.locals[id] as nat,
        ) is None,
{
    match frame {
        Frame::Right { op, left } => {
            theorem_valid_values_compare(m.heap, left, op, value);
        },
        Frame::Callee { args } => {
            let pushed = Machine { operands: m.operands.push(value), ..m };
            lemma_invoke_consistent(pushed, 0);
        },
        Frame::Argument { args, index } => {
            let pushed = Machine { operands: m.operands.push(value), ..m };
            lemma_invoke_consistent(pushed, args@.len());
        },
        Frame::GetObject { name } => {
            match value {
                Object::ClassInstance(i) => {
                    let record = m.heap.instances[i as int];
                    if !record.fields.contains_key(name@) && find_method(
                        m.heap.classes,
                        record.class as int,
                        name@,
                    ) is Some {
                        lemma_found_method_exists(m.heap, record.class as int, name@);
                    }
                },
                _ => {},
            }
        },
        Frame::Print => {
            theorem_valid_value_prints(m.heap, value);
        },
        Frame::Call { function, caller, base } => {
            let closure = m.heap.functions[function as int].closure as int;
            assert(ancestor(m.heap.scopes, closure, 0) == Some(closure));
        },
        _ => {},
    }
}

/// Calling fails on an inconsistency never.
proof fn lemma_invoke_consistent(m: Machine, count: nat)
    requires
        valid_heap(m.heap),
        forall|i: int| 0 <= i < m.operands.len() ==> valid_object(m.heap, #[trigger] m.operands[i]),
        m.operands.len() >= count + 1,
    ensures
        m.invoke(count).control != Control::Faulted(RuntimeError::Inconsistent),
{
    let base = m.operands.len() - count - 1;
    let callee = m.operands[base];
    assert(valid_object(m.heap, callee));
    match callee {
        Object::Class(c) => {
            let made = with_instance(m.heap, c);
            if find_method(made.classes, c as int, "init"@) is Some {
                lemma_found_method_exists(m.heap, c as int, "init"@);
            }
        },
        _ => {},
    }
}

} // verus!
