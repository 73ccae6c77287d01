//! The meaning of one transition of the interpreter, rule by rule.
//!
//! Each rule relates the interpreter before a transition to the interpreter
//! after it, the action handed to the host, and the reports made.

use std::rc::Rc;
use vstd::prelude::*;
use crate::callable::{arity_of, Callable, LoxCallable};
use crate::environment::{
    holder,
    lookup,
    parents,
    start_of,
    undefined_variable,
    with_value,
    Environment,
};
use crate::error_reporter::{native_report, runtime_report, ErrorReporterView};
use crate::expression::Expression;
use crate::interpreter::Interpreter;
use crate::lox_class::{instance_text, LoxClass, LoxInstance};
use crate::machine::{Action, Arithmetic, Control, Event, Frame};
use crate::statement::Statement;
use crate::text::decimal_digits;
use crate::token::{Literal, Token, TokenView, TypeView};
use crate::value::{
    boolean,
    number_less,
    number_of,
    numbers_equal,
    truthy,
    values_equal,
    UnwindType,
    Value,
};

verus! {

/// The bits of the double -1.
pub const NEGATIVE_ONE: u64 = 0xBFF0_0000_0000_0000;

/// The heap of an interpreter: its scopes, callables and instances.
pub struct Heap {
    pub environments: Seq<Environment>,
    pub callables: Seq<Callable>,
    pub instances: Seq<LoxInstance>,
}

impl Interpreter {
    /// The heap of this interpreter.
    pub open spec fn heap(&self) -> Heap {
        Heap {
            environments: self.environments@,
            callables: self.callables@,
            instances: self.instances@,
        }
    }
}

/// Whether two interpreters have the same heap.
pub open spec fn same_heap(pre: Interpreter, post: Interpreter) -> bool {
    post.heap() == pre.heap()
}

/// The interpreter goes on with a new control and new frames, on the same
/// heap.
pub open spec fn moves(pre: Heap, post: Interpreter, control: Control, frames: Seq<Frame>)
    -> bool {
    &&& post.heap() == pre
    &&& post.control == control
    &&& post.frames@ == frames
}

/// The transition asks nothing of the host and reports nothing.
pub open spec fn quiet(action: Action, before: ErrorReporterView, after: ErrorReporterView)
    -> bool {
    action is Continue && after == before
}

/// The transition ends in a runtime error at a token: the error is reported,
/// and the frames are to be left.
pub open spec fn fails(
    pre: Heap,
    post: Interpreter,
    frames: Seq<Frame>,
    token: TokenView,
    message: Seq<char>,
    action: Action,
    before: ErrorReporterView,
    after: ErrorReporterView,
) -> bool {
    &&& moves(pre, post, Control::Unwind(UnwindType::Error), frames)
    &&& action is Continue
    &&& after == before.with(runtime_report(token, message))
}

/// The transition asks the host for a number and waits for it.
pub open spec fn asks(
    pre: Heap,
    post: Interpreter,
    frames: Seq<Frame>,
    request: Action,
    action: Action,
    before: ErrorReporterView,
    after: ErrorReporterView,
) -> bool {
    &&& moves(pre, post, Control::Await(request), frames)
    &&& action == request
    &&& after == before
}

/// Reading a variable: the value of the nearest scope that holds the name,
/// from the scope that the depth gives; an error where none holds it.
pub open spec fn reads(
    pre: Heap,
    frames: Seq<Frame>,
    name: Token,
    depth: Option<usize>,
    environment: usize,
    post: Interpreter,
    action: Action,
    before: ErrorReporterView,
    after: ErrorReporterView,
) -> bool {
    match lookup(
        pre.environments,
        start_of(parents(pre.environments), environment as int, depth),
        name@.lexeme,
    ) {
        Some(value) => moves(pre, post, Control::Produce(value), frames) && quiet(
            action,
            before,
            after,
        ),
        None => fails(
            pre,
            post,
            frames,
            name@,
            undefined_variable(name@),
            action,
            before,
            after,
        ),
    }
}

/// The first transition of an expression.
///
/// A literal produces its value; for a number the host is asked to read the
/// digits. A grouping goes on with what it holds. A variable and `this` are
/// read. Every other expression goes on with its first operand and leaves a
/// frame for the rest.
pub open spec fn evaluates(
    pre: Heap,
    frames: Seq<Frame>,
    expression: Expression,
    environment: usize,
    post: Interpreter,
    action: Action,
    before: ErrorReporterView,
    after: ErrorReporterView,
) -> bool {
    match expression {
        Expression::Literal { value } => match value {
            Literal::String(text) => moves(
                pre,
                post,
                Control::Produce(Value::String(text)),
                frames,
            ) && quiet(action, before, after),
            Literal::Number(digits) => asks(
                pre,
                post,
                frames,
                Action::ParseNumber(digits),
                action,
                before,
                after,
            ),
            Literal::True => moves(pre, post, Control::Produce(Value::True), frames) && quiet(
                action,
                before,
                after,
            ),
            Literal::False => moves(pre, post, Control::Produce(Value::False), frames) && quiet(
                action,
                before,
                after,
            ),
            Literal::Nil => moves(pre, post, Control::Produce(Value::Nil), frames) && quiet(
                action,
                before,
                after,
            ),
        },
        Expression::Grouping { expression: inner } => moves(
            pre,
            post,
            Control::Evaluate { expression: inner, environment },
            frames,
        ) && quiet(action, before, after),
        Expression::Unary { operator, right } => moves(
            pre,
            post,
            Control::Evaluate { expression: right, environment },
            frames.push(Frame::Unary { operator }),
        ) && quiet(action, before, after),
        Expression::Binary { left, operator, right } => moves(
            pre,
            post,
            Control::Evaluate { expression: left, environment },
            frames.push(Frame::BinaryLeft { operator, right, environment }),
        ) && quiet(action, before, after),
        Expression::Variable { name, depth } => reads(
            pre,
            frames,
            name,
            depth,
            environment,
            post,
            action,
            before,
            after,
        ),
        Expression::This { keyword, depth } => reads(
            pre,
            frames,
            keyword,
            depth,
            environment,
            post,
            action,
            before,
            after,
        ),
        Expression::Assignment { name, value, depth } => moves(
            pre,
            post,
            Control::Evaluate { expression: value, environment },
            frames.push(Frame::Assign { name, depth, environment }),
        ) && quiet(action, before, after),
        Expression::Logical { left, operator, right } => moves(
            pre,
            post,
            Control::Evaluate { expression: left, environment },
            frames.push(Frame::Logical { operator, right, environment }),
        ) && quiet(action, before, after),
        Expression::Call { callee, paren, arguments } => moves(
            pre,
            post,
            Control::Evaluate { expression: callee, environment },
            frames.push(Frame::Callee { paren, arguments, environment }),
        ) && quiet(action, before, after),
        Expression::Get { object, name } => moves(
            pre,
            post,
            Control::Evaluate { expression: object, environment },
            frames.push(Frame::GetObject { name }),
        ) && quiet(action, before, after),
        Expression::SetProperty { object, name, value } => moves(
            pre,
            post,
            Control::Evaluate { expression: object, environment },
            frames.push(Frame::SetObject { name, value, environment }),
        ) && quiet(action, before, after),
    }
}

/// The heap after a scope has been added inside another: the new scope has
/// the next handle and the given variables.
pub open spec fn with_scope(
    before: Seq<Environment>,
    enclosing: usize,
    values: Map<Seq<char>, Value>,
    after: Seq<Environment>,
) -> bool {
    &&& after.len() == before.len() + 1
    &&& after.subrange(0, before.len() as int) == before
    &&& after.last().enclosing == Some(enclosing)
    &&& after.last().values.map() == values
}

/// The methods of a class, from its declaration: each method of the list
/// under its name, a later one in place of an earlier one of the same name.
/// Each has the scope of the class declaration as its closure, and the one
/// named `init` is the initializer.
pub open spec fn methods_of(methods: Seq<Rc<Statement>>, closure: usize) -> Map<
    Seq<char>,
    LoxCallable,
>
    decreases methods.len(),
{
    if methods.len() == 0 {
        Map::empty()
    } else {
        let front = methods_of(methods.drop_last(), closure);
        match *methods.last() {
            Statement::Function { name, params, body } => front.insert(
                name@.lexeme,
                LoxCallable { name, params, body, closure, is_initializer: name@.lexeme == "init"@ },
            ),
            _ => front,
        }
    }
}

/// The first transition of a statement.
///
/// A statement that starts with an expression goes on with the expression
/// and leaves a frame for the rest. A block runs its statements in a new
/// scope inside the current one. A function declaration makes a function
/// that closes over the current scope, and defines its name there. A class
/// declaration makes a class and defines its name in the current scope. A
/// `return` without a value leaves the frames up to the innermost call.
pub open spec fn executes(
    pre: Heap,
    frames: Seq<Frame>,
    statement: Statement,
    environment: usize,
    post: Interpreter,
    action: Action,
    before: ErrorReporterView,
    after: ErrorReporterView,
) -> bool {
    match statement {
        Statement::Expression { expression } => moves(
            pre,
            post,
            Control::Evaluate { expression, environment },
            frames,
        ) && quiet(action, before, after),
        Statement::Print { expression } => moves(
            pre,
            post,
            Control::Evaluate { expression, environment },
            frames.push(Frame::Print),
        ) && quiet(action, before, after),
        Statement::Var { name, initializer } => match initializer {
            Some(expression) => moves(
                pre,
                post,
                Control::Evaluate { expression, environment },
                frames.push(Frame::Define { name, environment }),
            ) && quiet(action, before, after),
            None => moves(
                pre,
                post,
                Control::Produce(Value::Nil),
                frames.push(Frame::Define { name, environment }),
            ) && quiet(action, before, after),
        },
        Statement::Block { statements } => {
            &&& with_scope(pre.environments, environment, Map::empty(), post.environments@)
            &&& post.callables@ == pre.callables
            &&& post.instances@ == pre.instances
            &&& post.control == Control::Produce(Value::Nil)
            &&& post.frames@ == frames.push(
                Frame::Sequence { statements, next: 0, environment: pre.environments.len() as usize },
            )
            &&& quiet(action, before, after)
        },
        Statement::If { condition, then_branch, else_branch } => moves(
            pre,
            post,
            Control::Evaluate { expression: condition, environment },
            frames.push(Frame::Branch { then_branch, else_branch, environment }),
        ) && quiet(action, before, after),
        Statement::While { condition, body } => moves(
            pre,
            post,
            Control::Evaluate { expression: condition, environment },
            frames.push(Frame::Loop { condition, body, environment }),
        ) && quiet(action, before, after),
        Statement::Function { name, params, body } => {
            &&& with_value(
                pre.environments,
                environment as int,
                name@.lexeme,
                Value::Callable(pre.callables.len() as usize),
                post.environments@,
            )
            &&& post.callables@ == pre.callables.push(
                Callable::Function(
                    LoxCallable { name, params, body, closure: environment, is_initializer: false },
                ),
            )
            &&& post.instances@ == pre.instances
            &&& post.control == Control::Produce(Value::Nil)
            &&& post.frames@ == frames
            &&& quiet(action, before, after)
        },
        Statement::Return { keyword, value } => match value {
            Some(expression) => moves(
                pre,
                post,
                Control::Evaluate { expression, environment },
                frames.push(Frame::ReturnValue),
            ) && quiet(action, before, after),
            None => moves(
                pre,
                post,
                Control::Unwind(UnwindType::Return(Value::Nil)),
                frames,
            ) && quiet(action, before, after),
        },
        Statement::Class { name, methods } => {
            &&& with_value(
                pre.environments,
                environment as int,
                name@.lexeme,
                Value::Callable(pre.callables.len() as usize),
                post.environments@,
            )
            &&& post.callables@.len() == pre.callables.len() + 1
            &&& post.callables@.subrange(0, pre.callables.len() as int) == pre.callables
            &&& post.callables@.last() matches Callable::Class(class) && class.name@
                == name@.lexeme && class.methods.map() == methods_of(methods@, environment)
            &&& post.instances@ == pre.instances
            &&& post.control == Control::Produce(Value::Nil)
            &&& post.frames@ == frames
            &&& quiet(action, before, after)
        },
    }
}

/// What a comparison of two doubles gives.
pub open spec fn compares(kind: TypeView, left: u64, right: u64) -> bool {
    match kind {
        TypeView::Greater => number_less(right, left),
        TypeView::GreaterEqual => number_less(right, left) || numbers_equal(left, right),
        TypeView::Less => number_less(left, right),
        _ => number_less(left, right) || numbers_equal(left, right),
    }
}

/// The operation on doubles that an operator stands for.
pub open spec fn arithmetic_of(kind: TypeView) -> Arithmetic {
    match kind {
        TypeView::Minus => Arithmetic::Subtract,
        TypeView::Slash => Arithmetic::Divide,
        TypeView::Star => Arithmetic::Multiply,
        _ => Arithmetic::Add,
    }
}

/// The message for a call with the wrong number of arguments.
pub open spec fn arity_message(expected: nat, got: nat) -> Seq<char> {
    "Expected "@ + decimal_digits(expected) + " arguments but got "@ + decimal_digits(got) + "."@
}

/// The message for a property that an instance does not have.
pub open spec fn undefined_property(name: TokenView) -> Seq<char> {
    "Undefined property "@ + name.lexeme + "."@
}

/// The token that stands for `this` where an initializer returns its
/// instance.
pub open spec fn this_token() -> TokenView {
    TokenView { token_type: TypeView::This, lexeme: "this"@, line: 0 }
}

/// The variables of a call: each parameter with the argument at its place,
/// a later parameter in place of an earlier one of the same name.
pub open spec fn bind_parameters(params: Seq<Token>, arguments: Seq<Value>) -> Map<
    Seq<char>,
    Value,
>
    decreases params.len(),
{
    if params.len() == 0 {
        Map::empty()
    } else {
        bind_parameters(params.drop_last(), arguments).insert(
            params.last()@.lexeme,
            arguments[params.len() - 1],
        )
    }
}

/// Applying `-` or `!` to a value. `!` gives the negation of the value's
/// truth. `-` asks the host for the product of the number and -1, and is an
/// error on a value that is no number.
pub open spec fn negates(
    pre: Heap,
    rest: Seq<Frame>,
    operator: Token,
    value: Value,
    post: Interpreter,
    action: Action,
    before: ErrorReporterView,
    after: ErrorReporterView,
) -> bool {
    if operator@.token_type is Bang {
        moves(pre, post, Control::Produce(boolean(!truthy(value))), rest) && quiet(
            action,
            before,
            after,
        )
    } else {
        match number_of(value) {
            Some(n) => asks(
                pre,
                post,
                rest,
                Action::Compute { operator: Arithmetic::Multiply, left: n, right: NEGATIVE_ONE },
                action,
                before,
                after,
            ),
            None => fails(
                pre,
                post,
                rest,
                operator@,
                "Operand must be a number."@,
                action,
                before,
                after,
            ),
        }
    }
}

/// Applying an operator to two values.
///
/// A comparison and `-`, `/`, `*` take two numbers: anything else is the
/// error `Operand must be a number.`; the comparison is made here, the
/// arithmetic is asked of the host. `==` and `!=` compare any two values.
/// `+` asks the host for the sum of two numbers, joins two strings, and is
/// an error on anything else.
pub open spec fn combines(
    pre: Heap,
    rest: Seq<Frame>,
    operator: Token,
    left: Value,
    right: Value,
    post: Interpreter,
    action: Action,
    before: ErrorReporterView,
    after: ErrorReporterView,
) -> bool {
    let kind = operator@.token_type;
    if kind is EqualEqual {
        moves(pre, post, Control::Produce(boolean(values_equal(left, right))), rest) && quiet(
            action,
            before,
            after,
        )
    } else if kind is BangEqual {
        moves(pre, post, Control::Produce(boolean(!values_equal(left, right))), rest) && quiet(
            action,
            before,
            after,
        )
    } else if kind is Plus {
        match (left, right) {
            (Value::Number(l), Value::Number(r)) => asks(
                pre,
                post,
                rest,
                Action::Compute { operator: Arithmetic::Add, left: l, right: r },
                action,
                before,
                after,
            ),
            (Value::String(l), Value::String(r)) => {
                &&& post.heap() == pre
                &&& post.control matches Control::Produce(Value::String(joined)) && joined@ == l@
                    + r@
                &&& post.frames@ == rest
                &&& quiet(action, before, after)
            },
            _ => fails(
                pre,
                post,
                rest,
                operator@,
                "Operands must be either two numbers or two strings."@,
                action,
                before,
                after,
            ),
        }
    } else {
        match (number_of(left), number_of(right)) {
            (Some(l), Some(r)) => if kind is Minus || kind is Slash || kind is Star {
                asks(
                    pre,
                    post,
                    rest,
                    Action::Compute { operator: arithmetic_of(kind), left: l, right: r },
                    action,
                    before,
                    after,
                )
            } else {
                moves(pre, post, Control::Produce(boolean(compares(kind, l, r))), rest) && quiet(
                    action,
                    before,
                    after,
                )
            },
            _ => fails(
                pre,
                post,
                rest,
                operator@,
                "Operand must be a number."@,
                action,
                before,
                after,
            ),
        }
    }
}

/// Storing the value of an assignment: in the nearest scope that holds the
/// name, from the scope that the depth gives; an error where none holds it.
/// The value of the assignment is the value stored.
pub open spec fn assigns(
    pre: Heap,
    rest: Seq<Frame>,
    name: Token,
    depth: Option<usize>,
    environment: usize,
    value: Value,
    post: Interpreter,
    action: Action,
    before: ErrorReporterView,
    after: ErrorReporterView,
) -> bool {
    match holder(
        pre.environments,
        start_of(parents(pre.environments), environment as int, depth),
        name@.lexeme,
    ) {
        Some(h) => {
            &&& with_value(pre.environments, h, name@.lexeme, value, post.environments@)
            &&& post.callables@ == pre.callables
            &&& post.instances@ == pre.instances
            &&& post.control == Control::Produce(value)
            &&& post.frames@ == rest
            &&& quiet(action, before, after)
        },
        None => fails(
            pre,
            post,
            rest,
            name@,
            undefined_variable(name@),
            action,
            before,
            after,
        ),
    }
}

/// The end of a call: an initializer gives the instance that `this` names in
/// its closure, whatever it returns; any other function gives its result.
pub open spec fn finishes(
    pre: Heap,
    rest: Seq<Frame>,
    is_initializer: bool,
    closure: usize,
    result: Value,
    post: Interpreter,
    action: Action,
    before: ErrorReporterView,
    after: ErrorReporterView,
) -> bool {
    if is_initializer {
        match lookup(pre.environments, closure as int, "this"@) {
            Some(instance) => moves(pre, post, Control::Produce(instance), rest) && quiet(
                action,
                before,
                after,
            ),
            None => fails(
                pre,
                post,
                rest,
                this_token(),
                undefined_variable(this_token()),
                action,
                before,
                after,
            ),
        }
    } else {
        moves(pre, post, Control::Produce(result), rest) && quiet(action, before, after)
    }
}

/// Entering a function: its body runs in a new scope inside the function's
/// closure, which holds the parameters with the arguments. A frame marks
/// the call; the frame above it runs the body.
pub open spec fn enters(
    pre: Heap,
    rest: Seq<Frame>,
    function: LoxCallable,
    arguments: Seq<Value>,
    post: Interpreter,
) -> bool {
    &&& with_scope(
        pre.environments,
        function.closure,
        bind_parameters(function.params@, arguments),
        post.environments@,
    )
    &&& post.callables@ == pre.callables
    &&& post.instances@ == pre.instances
    &&& post.control == Control::Produce(Value::Nil)
    &&& post.frames@ == rest.push(
        Frame::Call { is_initializer: function.is_initializer, closure: function.closure },
    ).push(
        Frame::Sequence {
            statements: function.body,
            next: 0,
            environment: pre.environments.len() as usize,
        },
    )
}

/// Binding a method to an instance: a new scope inside the method's closure
/// holds `this`, and the bound method is the method with that scope as its
/// closure.
pub open spec fn bound(method: LoxCallable, scope: usize) -> LoxCallable {
    LoxCallable { closure: scope, ..method }
}

/// Calling a class: a new instance without fields. Where the class has a
/// method `init`, the method is bound to the instance and entered, and a
/// frame under the call gives the instance once it has ended. Where it has
/// none, the instance is the value of the call.
pub open spec fn constructs(
    pre: Heap,
    rest: Seq<Frame>,
    class: Rc<LoxClass>,
    arguments: Seq<Value>,
    post: Interpreter,
) -> bool {
    let instance = pre.instances.len() as usize;
    let scope = pre.environments.len() as usize;
    &&& post.instances@.len() == pre.instances.len() + 1
    &&& post.instances@.subrange(0, pre.instances.len() as int) == pre.instances
    &&& post.instances@.last().class == class
    &&& post.instances@.last().fields.map() == Map::<Seq<char>, Value>::empty()
    &&& post.callables@ == pre.callables
    &&& if class.methods.map().dom().contains("init"@) {
        let init = class.methods.map()["init"@];
        &&& post.environments@.len() == pre.environments.len() + 2
        &&& post.environments@.subrange(0, pre.environments.len() as int) == pre.environments
        &&& post.environments@[scope as int].enclosing == Some(init.closure)
        &&& post.environments@[scope as int].values.map() == map![
            "this"@ => Value::Instance(instance),
        ]
        &&& post.environments@[scope + 1].enclosing == Some(scope)
        &&& post.environments@[scope + 1].values.map() == bind_parameters(init.params@, arguments)
        &&& post.control == Control::Produce(Value::Nil)
        &&& post.frames@ == rest.push(Frame::Construct { instance }).push(
            Frame::Call { is_initializer: init.is_initializer, closure: scope },
        ).push(
            Frame::Sequence { statements: init.body, next: 0, environment: (scope + 1) as usize },
        )
    } else {
        &&& post.environments@ == pre.environments
        &&& post.control == Control::Produce(Value::Instance(instance))
        &&& post.frames@ == rest
    }
}

/// Calling a value with arguments.
///
/// Only a callable can be called, and only with as many arguments as it
/// takes. The clock is asked of the host, a function is entered, a class
/// makes an instance.
pub open spec fn invokes(
    pre: Heap,
    rest: Seq<Frame>,
    paren: Token,
    callee: Value,
    arguments: Seq<Value>,
    post: Interpreter,
    action: Action,
    before: ErrorReporterView,
    after: ErrorReporterView,
) -> bool {
    match callee {
        Value::Callable(handle) => {
            let target = pre.callables[handle as int];
            if arguments.len() != arity_of(target) {
                fails(
                    pre,
                    post,
                    rest,
                    paren@,
                    arity_message(arity_of(target), arguments.len()),
                    action,
                    before,
                    after,
                )
            } else {
                match target {
                    Callable::Native(_) => asks(
                        pre,
                        post,
                        rest,
                        Action::Clock,
                        action,
                        before,
                        after,
                    ),
                    Callable::Function(function) => enters(pre, rest, function, arguments, post)
                        && quiet(action, before, after),
                    Callable::Class(class) => constructs(pre, rest, class, arguments, post)
                        && quiet(action, before, after),
                }
            }
        },
        _ => fails(
            pre,
            post,
            rest,
            paren@,
            "Can only call functions and classes."@,
            action,
            before,
            after,
        ),
    }
}

/// The value of a property of an instance: its field of that name; where it
/// has none, the method of that name of its class, bound to the instance as
/// a new callable; nothing where there is neither.
pub open spec fn property_value(pre: Heap, handle: usize, name: Token) -> Option<Value> {
    let instance = pre.instances[handle as int];
    if instance.fields.map().dom().contains(name@.lexeme) {
        Some(instance.fields.map()[name@.lexeme])
    } else if instance.class.methods.map().dom().contains(name@.lexeme) {
        Some(Value::Callable(pre.callables.len() as usize))
    } else {
        None
    }
}

/// What reading a property of an instance does to the heap and reports.
///
/// Reading a field changes nothing. Reading a method binds it: a new scope
/// inside the method's closure holds `this`, and a new callable is the
/// method with that scope as its closure. A property that the instance does
/// not have is an error.
pub open spec fn property(
    pre: Heap,
    handle: usize,
    name: Token,
    post: Heap,
    before: ErrorReporterView,
    after: ErrorReporterView,
) -> bool {
    let instance = pre.instances[handle as int];
    let methods = instance.class.methods.map();
    if instance.fields.map().dom().contains(name@.lexeme) {
        post == pre && after == before
    } else if methods.dom().contains(name@.lexeme) {
        let method = methods[name@.lexeme];
        &&& with_scope(
            pre.environments,
            method.closure,
            map!["this"@ => Value::Instance(handle)],
            post.environments,
        )
        &&& post.callables == pre.callables.push(
            Callable::Function(bound(method, pre.environments.len() as usize)),
        )
        &&& post.instances == pre.instances
        &&& after == before
    } else {
        post == pre && after == before.with(runtime_report(name@, undefined_property(name@)))
    }
}

/// Reading a property of a value: the property of an instance, and an error
/// on a value that is no instance.
pub open spec fn gets(
    pre: Heap,
    rest: Seq<Frame>,
    name: Token,
    object: Value,
    post: Interpreter,
    action: Action,
    before: ErrorReporterView,
    after: ErrorReporterView,
) -> bool {
    match object {
        Value::Instance(handle) => {
            &&& property(pre, handle, name, post.heap(), before, after)
            &&& post.control == (match property_value(pre, handle, name) {
                Some(value) => Control::Produce(value),
                None => Control::Unwind(UnwindType::Error),
            })
            &&& post.frames@ == rest
            &&& action is Continue
        },
        _ => fails(
            pre,
            post,
            rest,
            name@,
            "Only instances have properties."@,
            action,
            before,
            after,
        ),
    }
}

/// The instances after a field of one of them has been given a value.
pub open spec fn with_field(
    before: Seq<LoxInstance>,
    at: int,
    name: Seq<char>,
    value: Value,
    after: Seq<LoxInstance>,
) -> bool {
    &&& after.len() == before.len()
    &&& forall|i: int| 0 <= i < after.len() && i != at ==> after[i] == before[i]
    &&& after[at].class == before[at].class
    &&& after[at].fields.map() == before[at].fields.map().insert(name, value)
}

/// What stands for a callable when it is printed.
pub open spec fn callable_text(callable: Callable) -> Seq<char> {
    match callable {
        Callable::Native(_) => "<native fn>"@,
        Callable::Function(function) => "<fn "@ + function.name@.lexeme + ">"@,
        Callable::Class(class) => class.name@,
    }
}

/// The text that is printed for a value that is no number.
pub open spec fn printed(pre: Heap, value: Value) -> Seq<char> {
    match value {
        Value::String(text) => text@,
        Value::True => "true"@,
        Value::False => "false"@,
        Value::Nil => "nil"@,
        Value::Callable(handle) => callable_text(pre.callables[handle as int]),
        Value::Instance(handle) => instance_text(*pre.instances[handle as int].class),
        Value::Number(_) => Seq::empty(),
    }
}

/// Printing a value: the host is handed one line, the double itself for a
/// number and the text for any other value.
pub open spec fn prints(
    pre: Heap,
    rest: Seq<Frame>,
    value: Value,
    post: Interpreter,
    action: Action,
) -> bool {
    &&& moves(pre, post, Control::Produce(Value::Nil), rest)
    &&& match value {
        Value::Number(bits) => action == Action::PrintNumber(bits),
        _ => action matches Action::Print(text) && text@ == printed(pre, value),
    }
}

/// Handing a value to the innermost frame, which has been taken off the
/// stack.
pub open spec fn resumes(
    pre: Heap,
    rest: Seq<Frame>,
    frame: Frame,
    value: Value,
    post: Interpreter,
    action: Action,
    before: ErrorReporterView,
    after: ErrorReporterView,
) -> bool {
    match frame {
        Frame::Unary { operator } => negates(pre, rest, operator, value, post, action, before, after),
        Frame::BinaryLeft { operator, right, environment } => moves(
            pre,
            post,
            Control::Evaluate { expression: right, environment },
            rest.push(Frame::BinaryRight { operator, left: value }),
        ) && quiet(action, before, after),
        Frame::BinaryRight { operator, left } => combines(
            pre,
            rest,
            operator,
            left,
            value,
            post,
            action,
            before,
            after,
        ),
        Frame::Assign { name, depth, environment } => assigns(
            pre,
            rest,
            name,
            depth,
            environment,
            value,
            post,
            action,
            before,
            after,
        ),
        Frame::Logical { operator, right, environment } => if (operator@.token_type is Or)
            == truthy(value) {
            moves(pre, post, Control::Produce(value), rest) && quiet(action, before, after)
        } else {
            moves(pre, post, Control::Evaluate { expression: right, environment }, rest) && quiet(
                action,
                before,
                after,
            )
        },
        Frame::Callee { paren, arguments, environment } => if arguments@.len() == 0 {
            invokes(pre, rest, paren, value, Seq::empty(), post, action, before, after)
        } else {
            &&& post.heap() == pre
            &&& post.control == Control::Evaluate { expression: arguments@[0], environment }
            &&& post.frames@.len() == rest.len() + 1
            &&& post.frames@.drop_last() == rest
            &&& post.frames@.last() matches Frame::Argument {
                paren: p,
                callee: c,
                arguments: a,
                values: v,
                environment: e,
            } && p == paren && c == value && a == arguments && v@ == Seq::<Value>::empty() && e
                == environment
            &&& quiet(action, before, after)
        },
        Frame::Argument { paren, callee, arguments, values, environment } => {
            let done = values@.push(value);
            if done.len() >= arguments@.len() {
                invokes(pre, rest, paren, callee, done, post, action, before, after)
            } else {
                &&& post.heap() == pre
                &&& post.control == Control::Evaluate {
                    expression: arguments@[done.len() as int],
                    environment,
                }
                &&& post.frames@.len() == rest.len() + 1
                &&& post.frames@.drop_last() == rest
                &&& post.frames@.last() matches Frame::Argument {
                    paren: p,
                    callee: c,
                    arguments: a,
                    values: v,
                    environment: e,
                } && p == paren && c == callee && a == arguments && v@ == done && e == environment
                &&& quiet(action, before, after)
            }
        },
        Frame::GetObject { name } => gets(pre, rest, name, value, post, action, before, after),
        Frame::SetObject { name, value: expression, environment } => match value {
            Value::Instance(instance) => moves(
                pre,
                post,
                Control::Evaluate { expression, environment },
                rest.push(Frame::SetValue { name, instance }),
            ) && quiet(action, before, after),
            _ => fails(
                pre,
                post,
                rest,
                name@,
                "Only instances have properties."@,
                action,
                before,
                after,
            ),
        },
        Frame::SetValue { name, instance } => {
            &&& with_field(pre.instances, instance as int, name@.lexeme, value, post.instances@)
            &&& post.environments@ == pre.environments
            &&& post.callables@ == pre.callables
            &&& post.control == Control::Produce(value)
            &&& post.frames@ == rest
            &&& quiet(action, before, after)
        },
        Frame::Print => prints(pre, rest, value, post, action) && after == before,
        Frame::Define { name, environment } => {
            &&& with_value(
                pre.environments,
                environment as int,
                name@.lexeme,
                value,
                post.environments@,
            )
            &&& post.callables@ == pre.callables
            &&& post.instances@ == pre.instances
            &&& post.control == Control::Produce(Value::Nil)
            &&& post.frames@ == rest
            &&& quiet(action, before, after)
        },
        Frame::Branch { then_branch, else_branch, environment } => if truthy(value) {
            moves(pre, post, Control::Execute { statement: then_branch, environment }, rest)
                && quiet(action, before, after)
        } else {
            match else_branch {
                Some(statement) => moves(
                    pre,
                    post,
                    Control::Execute { statement, environment },
                    rest,
                ) && quiet(action, before, after),
                None => moves(pre, post, Control::Produce(Value::Nil), rest) && quiet(
                    action,
                    before,
                    after,
                ),
            }
        },
        Frame::Loop { condition, body, environment } => if truthy(value) {
            moves(
                pre,
                post,
                Control::Execute { statement: body, environment },
                rest.push(Frame::Again { condition, body, environment }),
            ) && quiet(action, before, after)
        } else {
            moves(pre, post, Control::Produce(Value::Nil), rest) && quiet(action, before, after)
        },
        Frame::Again { condition, body, environment } => moves(
            pre,
            post,
            Control::Evaluate { expression: condition, environment },
            rest.push(Frame::Loop { condition, body, environment }),
        ) && quiet(action, before, after),
        Frame::Sequence { statements, next, environment } => if next < statements@.len() {
            moves(
                pre,
                post,
                Control::Execute { statement: statements@[next as int], environment },
                rest.push(
                    Frame::Sequence { statements, next: (next + 1) as usize, environment },
                ),
            ) && quiet(action, before, after)
        } else {
            moves(pre, post, Control::Produce(Value::Nil), rest) && quiet(action, before, after)
        },
        Frame::ReturnValue => moves(
            pre,
            post,
            Control::Unwind(UnwindType::Return(value)),
            rest,
        ) && quiet(action, before, after),
        Frame::Call { is_initializer, closure } => finishes(
            pre,
            rest,
            is_initializer,
            closure,
            Value::Nil,
            post,
            action,
            before,
            after,
        ),
        Frame::Construct { instance } => moves(
            pre,
            post,
            Control::Produce(Value::Instance(instance)),
            rest,
        ) && quiet(action, before, after),
    }
}

/// The run is over: nothing is next and no frame is left.
pub open spec fn ends(
    pre: Heap,
    post: Interpreter,
    action: Action,
    before: ErrorReporterView,
    after: ErrorReporterView,
) -> bool {
    &&& moves(pre, post, Control::Idle, Seq::empty())
    &&& action is Finished
    &&& after == before
}

/// Leaving a frame. A `return` ends at the innermost call, which gives its
/// value; every other frame is dropped. With no frame left the run is over.
pub open spec fn unwinds(
    pre: Heap,
    frames: Seq<Frame>,
    unwind: UnwindType,
    post: Interpreter,
    action: Action,
    before: ErrorReporterView,
    after: ErrorReporterView,
) -> bool {
    if frames.len() == 0 {
        ends(pre, post, action, before, after)
    } else {
        match (unwind, frames.last()) {
            (UnwindType::Return(value), Frame::Call { is_initializer, closure }) => finishes(
                pre,
                frames.drop_last(),
                is_initializer,
                closure,
                value,
                post,
                action,
                before,
                after,
            ),
            _ => moves(pre, post, Control::Unwind(unwind), frames.drop_last()) && quiet(
                action,
                before,
                after,
            ),
        }
    }
}

/// The message of a clock that cannot be read.
pub open spec fn clock_failure() -> Seq<char> {
    "Unable to determine offset from UNIX epoch: Time is going backwards!"@
}

/// Taking the host's answer to a request. A number is the value that was
/// asked for. A failure of the clock is a runtime error. With any other
/// answer the request is made again.
pub open spec fn answers(
    pre: Heap,
    frames: Seq<Frame>,
    request: Action,
    event: Event,
    post: Interpreter,
    action: Action,
    before: ErrorReporterView,
    after: ErrorReporterView,
) -> bool {
    match event {
        Event::Number(bits) => moves(pre, post, Control::Produce(Value::Number(bits)), frames)
            && quiet(action, before, after),
        Event::Failed if request is Clock => {
            &&& moves(pre, post, Control::Unwind(UnwindType::Error), frames)
            &&& action is Continue
            &&& after == before.with(native_report(clock_failure()))
        },
        _ => asks(pre, post, frames, request, action, before, after),
    }
}

/// One transition of the interpreter.
///
/// With nothing next, the run is over. An expression and a statement make
/// their first transition. A value goes to the innermost frame, and ends the
/// run where there is none. An unwinding leaves a frame. A request waits
/// for its answer.
pub open spec fn transition(
    pre: Interpreter,
    event: Event,
    post: Interpreter,
    action: Action,
    before: ErrorReporterView,
    after: ErrorReporterView,
) -> bool {
    let heap = pre.heap();
    let frames = pre.frames@;
    match pre.control {
        Control::Idle => moves(heap, post, Control::Idle, frames) && action is Finished && after
            == before,
        Control::Evaluate { expression, environment } => evaluates(
            heap,
            frames,
            *expression,
            environment,
            post,
            action,
            before,
            after,
        ),
        Control::Execute { statement, environment } => executes(
            heap,
            frames,
            *statement,
            environment,
            post,
            action,
            before,
            after,
        ),
        Control::Produce(value) => if frames.len() == 0 {
            ends(heap, post, action, before, after)
        } else {
            resumes(heap, frames.drop_last(), frames.last(), value, post, action, before, after)
        },
        Control::Unwind(unwind) => unwinds(heap, frames, unwind, post, action, before, after),
        Control::Await(request) => answers(
            heap,
            frames,
            request,
            event,
            post,
            action,
            before,
            after,
        ),
    }
}

} // verus!
