//! What holds of every run of the interpreter.

use vstd::prelude::*;
use crate::callable::Callable;
use crate::environment::{ancestor, ancestors, lemma_ancestor, parents};
use crate::error_reporter::ErrorReporterView;
use crate::expression::Expression;
use crate::interpreter::Interpreter;
use crate::machine::{Action, Control, Event, Frame};
use crate::semantics::{bound, gets, invokes, transition, Heap};
use crate::token::Token;
use crate::value::Value;

verus! {

/// The depth that an expression carries, if it is a reference to a variable
/// or `this`.
pub open spec fn reference_depth(expression: Expression) -> Option<usize> {
    match expression {
        Expression::Variable { name, depth } => depth,
        Expression::This { keyword, depth } => depth,
        _ => None,
    }
}

/// The number of scopes on the way outward from a scope, the scope itself
/// included.
pub open spec fn scopes_from(interpreter: Interpreter, environment: usize) -> nat {
    ancestors(parents(interpreter.environments@), environment as int) + 1
}

/// The reference that is about to be evaluated, if one is: its depth and
/// the scope in which it stands.
pub open spec fn pending_reference(control: Control) -> Option<(usize, usize)> {
    match control {
        Control::Evaluate { expression, environment } => match reference_depth(*expression) {
            Some(d) => Some((d, environment)),
            None => None,
        },
        _ => None,
    }
}

/// When a reference with depth `d` is about to be evaluated, at least `d + 1`
/// scopes lie on the way outward from the current scope, and the scope at
/// that distance is a scope of the heap.
pub proof fn lemma_reference_has_its_scope(interpreter: Interpreter)
    requires
        interpreter.wf(),
        pending_reference(interpreter.control) is Some,
    ensures
        ({
            let (d, environment) = pending_reference(interpreter.control)->0;
            &&& d + 1 <= scopes_from(interpreter, environment)
            &&& 0 <= ancestor(parents(interpreter.environments@), environment as int, d as nat)
                < interpreter.environments@.len()
        }),
{
    let (d, environment) = pending_reference(interpreter.control)->0;
    lemma_ancestor(parents(interpreter.environments@), environment as int, d as nat);
}

/// The assignment whose value is about to be stored, if one is: its depth
/// and the scope in which it stands.
pub open spec fn pending_assignment(frames: Seq<Frame>) -> Option<(usize, usize)> {
    if frames.len() == 0 {
        None
    } else {
        match frames.last() {
            Frame::Assign { name, depth, environment } => match depth {
                Some(d) => Some((d, environment)),
                None => None,
            },
            _ => None,
        }
    }
}

/// When the value of an assignment with depth `d` is about to be stored, at
/// least `d + 1` scopes lie on the way outward from the scope of the
/// assignment.
pub proof fn lemma_assignment_has_its_scope(interpreter: Interpreter)
    requires
        interpreter.wf(),
        pending_assignment(interpreter.frames@) is Some,
    ensures
        ({
            let (d, environment) = pending_assignment(interpreter.frames@)->0;
            &&& d + 1 <= scopes_from(interpreter, environment)
            &&& 0 <= ancestor(parents(interpreter.environments@), environment as int, d as nat)
                < interpreter.environments@.len()
        }),
{
    let (d, environment) = pending_assignment(interpreter.frames@)->0;
    assert(crate::machine::frame_ok(
        interpreter.frames@[interpreter.frames@.len() - 1],
        interpreter.shape(),
    ));
    lemma_ancestor(parents(interpreter.environments@), environment as int, d as nat);
}

/// A call of a function runs the function's body in a scope that did not
/// exist before the call and that lies inside the function's closure,
/// whatever the frames of the caller are.
pub proof fn lemma_body_runs_in_child_of_closure(
    pre: Heap,
    rest: Seq<Frame>,
    paren: Token,
    handle: usize,
    arguments: Seq<Value>,
    post: Interpreter,
    action: Action,
    before: ErrorReporterView,
    after: ErrorReporterView,
)
    requires
        invokes(
            pre,
            rest,
            paren,
            Value::Callable(handle),
            arguments,
            post,
            action,
            before,
            after,
        ),
        pre.callables[handle as int] matches Callable::Function(function)
            && function.params@.len() == arguments.len(),
        pre.environments.len() <= usize::MAX,
    ensures
        pre.callables[handle as int] matches Callable::Function(function) && post.frames@.last()
            matches Frame::Sequence { statements, next, environment } && {
            &&& statements == function.body
            &&& next == 0
            &&& environment == pre.environments.len()
            &&& post.environments@.len() == pre.environments.len() + 1
            &&& post.environments@[environment as int].enclosing == Some(function.closure)
        },
{
}

/// Reading a method from an instance twice gives two callables that are not
/// the same object, neither of which was there before; both are the method
/// of the class, each with a closure of its own in which `this` is the
/// instance.
pub proof fn lemma_bound_methods_are_distinct(
    pre: Heap,
    name: Token,
    instance: usize,
    first: Interpreter,
    second: Interpreter,
    action: Action,
    before: ErrorReporterView,
    after: ErrorReporterView,
)
    requires
        gets(
            pre,
            Seq::empty(),
            name,
            Value::Instance(instance),
            first,
            action,
            before,
            after,
        ),
        gets(
            first.heap(),
            Seq::empty(),
            name,
            Value::Instance(instance),
            second,
            action,
            before,
            after,
        ),
        !pre.instances[instance as int].fields.map().dom().contains(name@.lexeme),
        pre.instances[instance as int].class.methods.map().dom().contains(name@.lexeme),
        pre.environments.len() + 2 <= usize::MAX,
        pre.callables.len() + 2 <= usize::MAX,
    ensures
        first.control matches Control::Produce(Value::Callable(one)) && second.control
            matches Control::Produce(Value::Callable(two)) && {
            let method = pre.instances[instance as int].class.methods.map()[name@.lexeme];
            &&& one != two
            &&& one >= pre.callables.len()
            &&& two >= pre.callables.len()
            &&& two < second.callables@.len()
            &&& second.callables@[one as int] matches Callable::Function(f) && f == bound(
                method,
                f.closure,
            ) && second.environments@[f.closure as int].values.map()["this"@]
                == Value::Instance(instance)
            &&& second.callables@[two as int] matches Callable::Function(g) && g == bound(
                method,
                g.closure,
            ) && second.environments@[g.closure as int].values.map()["this"@]
                == Value::Instance(instance)
        },
{
    let n = pre.environments.len() as int;
    assert(first.environments@.len() == n + 1);
    assert(first.callables@.len() == pre.callables.len() + 1);
    assert(second.callables@.len() == pre.callables.len() + 2);
    assert(second.environments@.subrange(0, n + 1) == first.environments@);
    assert(second.environments@[n] == second.environments@.subrange(0, n + 1)[n]);
}

/// The host is asked to print only when a `print` statement has its value,
/// and then exactly once for the statement: the frame of the statement is
/// gone after the transition.
pub proof fn lemma_print_is_from_print_statement(
    pre: Interpreter,
    event: Event,
    post: Interpreter,
    action: Action,
    before: ErrorReporterView,
    after: ErrorReporterView,
)
    requires
        pre.wf(),
        transition(pre, event, post, action, before, after),
    ensures
        (action is Print || action is PrintNumber) <==> (pre.control is Produce
            && pre.frames@.len() > 0 && pre.frames@.last() is Print),
        (action is Print || action is PrintNumber) ==> post.frames@
            == pre.frames@.drop_last() && post.control == Control::Produce(Value::Nil)
            && after == before,
{
}

/// The interpreter takes the host's answer to a request as it is: the
/// number that the host hands over is the value that goes to the innermost
/// frame, and nothing else changes.
pub proof fn lemma_answer_is_the_value(
    pre: Interpreter,
    bits: u64,
    post: Interpreter,
    action: Action,
    before: ErrorReporterView,
    after: ErrorReporterView,
)
    requires
        pre.control is Await,
        transition(pre, Event::Number(bits), post, action, before, after),
    ensures
        post.control == Control::Produce(Value::Number(bits)),
        post.frames@ == pre.frames@,
        post.heap() == pre.heap(),
        action is Continue,
        after == before,
{
}

/// A transition keeps the scopes, callables and instances that were there:
/// the heap only grows, and no scope moves to another place in the chain.
pub proof fn lemma_heap_only_grows(
    pre: Interpreter,
    event: Event,
    post: Interpreter,
    action: Action,
    before: ErrorReporterView,
    after: ErrorReporterView,
)
    requires
        pre.wf(),
        transition(pre, event, post, action, before, after),
    ensures
        pre.environments@.len() <= post.environments@.len(),
        pre.callables@.len() <= post.callables@.len(),
        pre.instances@.len() <= post.instances@.len(),
        forall|i: int|
            0 <= i < pre.environments@.len() ==> (#[trigger] post.environments@[i]).enclosing
                == pre.environments@[i].enclosing,
        forall|i: int|
            0 <= i < pre.callables@.len() ==> #[trigger] post.callables@[i] == pre.callables@[i],
{
}

} // verus!
