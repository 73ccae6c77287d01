//! The state of the interpreter between two transitions, and what makes a
//! state well formed.

use std::rc::Rc;
use vstd::prelude::*;
use crate::callable::{Callable, LoxCallable};
use crate::environment::{ancestors, lemma_ancestors_prefix};
use crate::expression::{expression_scoped, expression_well_formed, is_binary_operator, Expression};
use crate::lox_class::{LoxClass, LoxInstance};
use crate::statement::{
    statement_scoped,
    statement_views,
    statement_well_formed,
    statements_scoped,
    statements_well_formed,
    Statement,
};
use crate::token::Token;
use crate::value::{UnwindType, Value};

verus! {

/// An operation on two doubles that the host performs.
#[derive(Debug, Clone, Copy, PartialEq, Eq, Structural)]
pub enum Arithmetic {
    Add,
    Subtract,
    Multiply,
    Divide,
}

/// What a transition asks of the host.
#[derive(Debug)]
pub enum Action {
    /// Nothing: make the next transition.
    Continue,
    /// Print the text and a newline.
    Print(String),
    /// Print the double with these bits, and a newline.
    PrintNumber(u64),
    /// Compute on two doubles given by their bits; answer with the bits of
    /// the result.
    Compute { operator: Arithmetic, left: u64, right: u64 },
    /// Read the digits as a double; answer with its bits.
    ParseNumber(String),
    /// Read the clock; answer with the bits of the seconds since the Unix
    /// epoch, or with a failure.
    Clock,
    /// Nothing: the run is over.
    Finished,
}

impl Action {
    /// A copy of this action.
    pub fn duplicate(&self) -> (copy: Action)
        ensures
            copy == *self,
    {
        match self {
            Action::Continue => Action::Continue,
            Action::Print(text) => Action::Print(text.clone()),
            Action::PrintNumber(bits) => Action::PrintNumber(*bits),
            Action::Compute { operator, left, right } => Action::Compute {
                operator: *operator,
                left: *left,
                right: *right,
            },
            Action::ParseNumber(text) => Action::ParseNumber(text.clone()),
            Action::Clock => Action::Clock,
            Action::Finished => Action::Finished,
        }
    }
}

/// What the host hands to a transition.
#[derive(Debug, Clone, Copy, PartialEq, Eq, Structural)]
pub enum Event {
    /// No answer: the last action asked for none.
    Resume,
    /// The bits of the double that the last action asked for.
    Number(u64),
    /// The last action could not be performed.
    Failed,
}

/// What the interpreter does next.
pub enum Control {
    /// Nothing: no run is under way.
    Idle,
    /// Evaluate an expression in a scope.
    Evaluate { expression: Rc<Expression>, environment: usize },
    /// Execute a statement in a scope.
    Execute { statement: Rc<Statement>, environment: usize },
    /// Hand a value to the innermost frame: the value of an expression, or
    /// `nil` after a statement.
    Produce(Value),
    /// Leave the frames, one by one: all of them after an error, those up to
    /// the innermost call for a `return`.
    Unwind(UnwindType),
    /// Wait for the host's answer to an action.
    Await(Action),
}

/// What waits for a value: the rest of an expression or of a statement.
#[allow(inconsistent_fields)]
pub enum Frame {
    Unary { operator: Token },
    BinaryLeft { operator: Token, right: Rc<Expression>, environment: usize },
    BinaryRight { operator: Token, left: Value },
    Assign { name: Token, depth: Option<usize>, environment: usize },
    Logical { operator: Token, right: Rc<Expression>, environment: usize },
    Callee { paren: Token, arguments: Rc<Vec<Rc<Expression>>>, environment: usize },
    Argument {
        paren: Token,
        callee: Value,
        arguments: Rc<Vec<Rc<Expression>>>,
        values: Vec<Value>,
        environment: usize,
    },
    GetObject { name: Token },
    SetObject { name: Token, value: Rc<Expression>, environment: usize },
    SetValue { name: Token, instance: usize },
    Print,
    Define { name: Token, environment: usize },
    Branch { then_branch: Rc<Statement>, else_branch: Option<Rc<Statement>>, environment: usize },
    Loop { condition: Rc<Expression>, body: Rc<Statement>, environment: usize },
    Again { condition: Rc<Expression>, body: Rc<Statement>, environment: usize },
    Sequence { statements: Rc<Vec<Rc<Statement>>>, next: usize, environment: usize },
    ReturnValue,
    Call { is_initializer: bool, closure: usize },
    Construct { instance: usize },
}

/// The extent of the heap: for each scope the scope around it, and the
/// numbers of callables and of instances.
pub struct Shape {
    pub parents: Seq<Option<usize>>,
    pub callables: nat,
    pub instances: nat,
}

/// Whether a heap of one extent has grown into a heap of another: what was
/// there is there still.
pub open spec fn extends(before: Shape, after: Shape) -> bool {
    &&& before.parents.len() <= after.parents.len()
    &&& forall|i: int| 0 <= i < before.parents.len() ==> before.parents[i] == after.parents[i]
    &&& before.callables <= after.callables
    &&& before.instances <= after.instances
}

/// Whether the handle in a value, if it holds one, is a handle of the heap.
pub open spec fn value_ok(value: Value, shape: Shape) -> bool {
    match value {
        Value::Callable(c) => c < shape.callables,
        Value::Instance(i) => i < shape.instances,
        _ => true,
    }
}

/// Whether every value of a table is a value of the heap.
pub open spec fn table_ok(table: Map<Seq<char>, Value>, shape: Shape) -> bool {
    forall|name: Seq<char>| table.dom().contains(name) ==> value_ok(#[trigger] table[name], shape)
}

/// Whether an expression can be evaluated in a scope: the scope exists,
/// every depth in the expression is below the number of scopes around it,
/// and the operators are operators.
pub open spec fn expression_fits(expression: Expression, environment: usize, shape: Shape) -> bool {
    &&& environment < shape.parents.len()
    &&& expression_scoped(expression@, ancestors(shape.parents, environment as int))
    &&& expression_well_formed(expression@)
}

/// Whether a statement can be executed in a scope.
pub open spec fn statement_fits(statement: Statement, environment: usize, shape: Shape) -> bool {
    &&& environment < shape.parents.len()
    &&& statement_scoped(statement@, ancestors(shape.parents, environment as int))
    &&& statement_well_formed(statement@)
}

/// Whether the statements of a list can be executed in a scope.
pub open spec fn statements_fit(
    statements: Seq<Rc<Statement>>,
    environment: usize,
    shape: Shape,
) -> bool {
    &&& environment < shape.parents.len()
    &&& statements_scoped(
        statement_views(statements),
        ancestors(shape.parents, environment as int),
    )
    &&& statements_well_formed(statement_views(statements))
}

/// Whether the expressions of a list can be evaluated in a scope.
pub open spec fn expressions_fit(
    expressions: Seq<Rc<Expression>>,
    environment: usize,
    shape: Shape,
) -> bool {
    &&& environment < shape.parents.len()
    &&& forall|i: int|
        0 <= i < expressions.len() ==> expression_fits(
            *#[trigger] expressions[i],
            environment,
            shape,
        )
}

/// Whether a function can be called: its closure exists, and its body can be
/// executed in a scope that lies `extra` scopes inside the closure.
pub open spec fn function_ok(function: LoxCallable, shape: Shape, extra: nat) -> bool {
    &&& function.closure < shape.parents.len()
    &&& statements_scoped(
        statement_views(function.body@),
        ancestors(shape.parents, function.closure as int) + extra,
    )
    &&& statements_well_formed(statement_views(function.body@))
}

/// Whether every method of a class can be bound and called.
pub open spec fn class_ok(class: LoxClass, shape: Shape) -> bool {
    forall|name: Seq<char>|
        class.methods.map().dom().contains(name) ==> function_ok(
            #[trigger] class.methods.map()[name],
            shape,
            2,
        )
}

/// Whether a callable can be called.
pub open spec fn callable_ok(callable: Callable, shape: Shape) -> bool {
    match callable {
        Callable::Native(_) => true,
        Callable::Function(f) => function_ok(f, shape, 1),
        Callable::Class(c) => class_ok(*c, shape),
    }
}

/// Whether an instance is an instance of the heap.
pub open spec fn instance_ok(instance: LoxInstance, shape: Shape) -> bool {
    class_ok(*instance.class, shape) && table_ok(instance.fields.map(), shape)
}

/// Whether a frame can take a value.
pub open spec fn frame_ok(frame: Frame, shape: Shape) -> bool {
    match frame {
        Frame::Unary { operator } => operator@.token_type is Minus || operator@.token_type is Bang,
        Frame::BinaryLeft { operator, right, environment } => is_binary_operator(operator@)
            && expression_fits(*right, environment, shape),
        Frame::BinaryRight { operator, left } => is_binary_operator(operator@) && value_ok(
            left,
            shape,
        ),
        Frame::Assign { name, depth, environment } => environment < shape.parents.len() && (
        depth matches Some(d) ==> d < ancestors(shape.parents, environment as int)),
        Frame::Logical { operator, right, environment } => (operator@.token_type is Or
            || operator@.token_type is And) && expression_fits(*right, environment, shape),
        Frame::Callee { paren, arguments, environment } => expressions_fit(
            arguments@,
            environment,
            shape,
        ),
        Frame::Argument { paren, callee, arguments, values, environment } => {
            &&& value_ok(callee, shape)
            &&& forall|i: int| 0 <= i < values@.len() ==> value_ok(#[trigger] values@[i], shape)
            &&& expressions_fit(arguments@, environment, shape)
            &&& values@.len() < arguments@.len()
        },
        Frame::GetObject { name } => true,
        Frame::SetObject { name, value, environment } => expression_fits(
            *value,
            environment,
            shape,
        ),
        Frame::SetValue { name, instance } => instance < shape.instances,
        Frame::Print => true,
        Frame::Define { name, environment } => environment < shape.parents.len(),
        Frame::Branch { then_branch, else_branch, environment } => statement_fits(
            *then_branch,
            environment,
            shape,
        ) && (else_branch matches Some(b) ==> statement_fits(*b, environment, shape)),
        Frame::Loop { condition, body, environment } => expression_fits(
            *condition,
            environment,
            shape,
        ) && statement_fits(*body, environment, shape),
        Frame::Again { condition, body, environment } => expression_fits(
            *condition,
            environment,
            shape,
        ) && statement_fits(*body, environment, shape),
        Frame::Sequence { statements, next, environment } => statements_fit(
            statements@,
            environment,
            shape,
        ) && next <= statements@.len(),
        Frame::ReturnValue => true,
        Frame::Call { is_initializer, closure } => closure < shape.parents.len(),
        Frame::Construct { instance } => instance < shape.instances,
    }
}

/// Whether every frame of a stack can take a value.
pub open spec fn frames_ok(frames: Seq<Frame>, shape: Shape) -> bool {
    forall|i: int| 0 <= i < frames.len() ==> frame_ok(#[trigger] frames[i], shape)
}

/// Whether the interpreter can do what is next.
pub open spec fn control_ok(control: Control, shape: Shape) -> bool {
    match control {
        Control::Idle => true,
        Control::Evaluate { expression, environment } => expression_fits(
            *expression,
            environment,
            shape,
        ),
        Control::Execute { statement, environment } => statement_fits(
            *statement,
            environment,
            shape,
        ),
        Control::Produce(value) => value_ok(value, shape),
        Control::Unwind(unwind) => unwind matches UnwindType::Return(value) ==> value_ok(
            value,
            shape,
        ),
        Control::Await(action) => action is Compute || action is ParseNumber || action is Clock,
    }
}

/// What can be evaluated in a heap can be evaluated after the heap has
/// grown: no scope has left, and as many scopes lie around each.
pub proof fn lemma_fits_extends(before: Shape, after: Shape)
    requires
        extends(before, after),
    ensures
        forall|e: Expression, at: usize| #[trigger]
            expression_fits(e, at, before) ==> expression_fits(e, at, after),
        forall|s: Statement, at: usize| #[trigger]
            statement_fits(s, at, before) ==> statement_fits(s, at, after),
        forall|s: Seq<Rc<Statement>>, at: usize| #[trigger]
            statements_fit(s, at, before) ==> statements_fit(s, at, after),
        forall|f: LoxCallable, extra: nat| #[trigger]
            function_ok(f, before, extra) ==> function_ok(f, after, extra),
        forall|at: int|
            0 <= at < before.parents.len() ==> #[trigger] ancestors(after.parents, at)
                == ancestors(before.parents, at),
{
    assert forall|at: int| 0 <= at < before.parents.len() implies #[trigger] ancestors(
        after.parents,
        at,
    ) == ancestors(before.parents, at) by {
        lemma_ancestors_prefix(before.parents, after.parents, at);
    }
    assert forall|e: Expression, at: usize| #[trigger]
        expression_fits(e, at, before) implies expression_fits(e, at, after) by {
        lemma_ancestors_prefix(before.parents, after.parents, at as int);
    }
    assert forall|s: Statement, at: usize| #[trigger]
        statement_fits(s, at, before) implies statement_fits(s, at, after) by {
        lemma_ancestors_prefix(before.parents, after.parents, at as int);
    }
    assert forall|s: Seq<Rc<Statement>>, at: usize| #[trigger]
        statements_fit(s, at, before) implies statements_fit(s, at, after) by {
        lemma_ancestors_prefix(before.parents, after.parents, at as int);
    }
    assert forall|f: LoxCallable, extra: nat| #[trigger]
        function_ok(f, before, extra) implies function_ok(f, after, extra) by {
        lemma_ancestors_prefix(before.parents, after.parents, f.closure as int);
    }
}

/// A frame that can take a value can still take one after the heap has
/// grown.
pub proof fn lemma_frame_extends(frame: Frame, before: Shape, after: Shape)
    requires
        extends(before, after),
        frame_ok(frame, before),
    ensures
        frame_ok(frame, after),
{
    lemma_fits_extends(before, after);
    match frame {
        Frame::Callee { paren, arguments, environment } => {
            assert forall|i: int| 0 <= i < arguments@.len() implies expression_fits(
                *#[trigger] arguments@[i],
                environment,
                after,
            ) by {
                assert(expression_fits(*arguments@[i], environment, before));
            }
        },
        Frame::Argument { paren, callee, arguments, values, environment } => {
            assert forall|i: int| 0 <= i < arguments@.len() implies expression_fits(
                *#[trigger] arguments@[i],
                environment,
                after,
            ) by {
                assert(expression_fits(*arguments@[i], environment, before));
            }
        },
        Frame::Assign { name, depth, environment } => {
            lemma_ancestors_prefix(before.parents, after.parents, environment as int);
        },
        _ => {},
    }
}

/// The frames of a stack can still take a value after the heap has grown.
pub proof fn lemma_frames_extend(frames: Seq<Frame>, before: Shape, after: Shape)
    requires
        extends(before, after),
        frames_ok(frames, before),
    ensures
        frames_ok(frames, after),
{
    assert forall|i: int| 0 <= i < frames.len() implies frame_ok(#[trigger] frames[i], after) by {
        lemma_frame_extends(frames[i], before, after);
    }
}

/// The objects of a heap are objects of the heap after it has grown.
pub proof fn lemma_objects_extend(before: Shape, after: Shape)
    requires
        extends(before, after),
    ensures
        forall|v: Value| #[trigger] value_ok(v, before) ==> value_ok(v, after),
        forall|t: Map<Seq<char>, Value>| #[trigger] table_ok(t, before) ==> table_ok(t, after),
        forall|c: LoxClass| #[trigger] class_ok(c, before) ==> class_ok(c, after),
        forall|c: Callable| #[trigger] callable_ok(c, before) ==> callable_ok(c, after),
        forall|i: LoxInstance| #[trigger] instance_ok(i, before) ==> instance_ok(i, after),
{
    lemma_fits_extends(before, after);
    assert forall|t: Map<Seq<char>, Value>| #[trigger] table_ok(t, before) implies table_ok(
        t,
        after,
    ) by {
        assert forall|name: Seq<char>| t.dom().contains(name) implies value_ok(
            #[trigger] t[name],
            after,
        ) by {
            assert(value_ok(t[name], before));
        }
    }
    assert forall|c: LoxClass| #[trigger] class_ok(c, before) implies class_ok(c, after) by {
        assert forall|name: Seq<char>| c.methods.map().dom().contains(name) implies function_ok(
            #[trigger] c.methods.map()[name],
            after,
            2,
        ) by {
            assert(function_ok(c.methods.map()[name], before, 2));
        }
    }
}

} // verus!
