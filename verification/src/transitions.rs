//! The transitions that hand a value to a frame: operators, assignment,
//! calls, properties and printing.

use std::rc::Rc;
use vstd::prelude::*;
use vstd::string::StringExecFns;
use crate::callable::{Callable, LoxCallable};
use crate::environment::{
    ancestors,
    holder,
    lemma_ancestor,
    lemma_holder,
    lemma_outermost,
    parents,
    start_of,
    Environment,
};
use crate::error_reporter::ErrorReporter;
use crate::interpreter::Interpreter;
use crate::lox_class::{LoxClass, LoxInstance};
use crate::machine::{
    callable_ok,
    class_ok,
    extends,
    frame_ok,
    frames_ok,
    function_ok,
    instance_ok,
    lemma_fits_extends,
    lemma_objects_extend,
    table_ok,
    value_ok,
    Action,
    Arithmetic,
    Control,
    Event,
    Frame,
};
use crate::expression::Expression;
use crate::statement::{statement_views, Statement};
use crate::semantics::{
    answers,
    moves,
    resumes,
    transition,
    unwinds,
    arity_message,
    assigns,
    bind_parameters,
    bound,
    combines,
    constructs,
    enters,
    finishes,
    gets,
    property,
    property_value,
    invokes,
    negates,
    prints,
    with_field,
    NEGATIVE_ONE,
};
use crate::text::{decimal, join3, share};
use crate::token::{Token, Type};
use crate::value::{number_eq, number_lt, UnwindType, Value};

verus! {

/// Compares two doubles as a comparison operator does.
fn compare(kind: &Type, left: u64, right: u64) -> (result: bool)
    ensures
        result == crate::semantics::compares(kind@, left, right),
{
    match kind {
        Type::Greater => number_lt(right, left),
        Type::GreaterEqual => number_lt(right, left) || number_eq(left, right),
        Type::Less => number_lt(left, right),
        _ => number_lt(left, right) || number_eq(left, right),
    }
}

/// The operation on doubles that an operator stands for.
fn arithmetic(kind: &Type) -> (result: Arithmetic)
    ensures
        result == crate::semantics::arithmetic_of(kind@),
{
    match kind {
        Type::Minus => Arithmetic::Subtract,
        Type::Slash => Arithmetic::Divide,
        Type::Star => Arithmetic::Multiply,
        _ => Arithmetic::Add,
    }
}

/// Builds the message for a call with the wrong number of arguments.
fn arity_text(expected: usize, got: usize) -> (text: String)
    ensures
        text@ == arity_message(expected as nat, got as nat),
{
    let first = decimal(expected);
    let second = decimal(got);
    let start = String::from_str("Expected ");
    start.concat(first.as_str()).concat(" arguments but got ").concat(second.as_str()).concat(".")
}

impl Interpreter {
    /// Asks the host for a number, and waits for it.
    pub(crate) fn ask(&mut self, request: Action) -> (action: Action)
        requires
            old(self).heap_ok(),
            frames_ok(old(self).frames@, old(self).shape()),
            request is Compute || request is ParseNumber || request is Clock,
        ensures
            final(self).wf(),
            crate::semantics::moves(
                old(self).heap(),
                *final(self),
                Control::Await(request),
                old(self).frames@,
            ),
            action == request,
    {
        let copy = request.duplicate();
        self.control = Control::Await(request);
        copy
    }

    /// Applies `-` or `!` to a value.
    pub(crate) fn negate(
        &mut self,
        operator: &Token,
        value: Value,
        reporter: &mut ErrorReporter,
    ) -> (action: Action)
        requires
            old(self).heap_ok(),
            frames_ok(old(self).frames@, old(self).shape()),
        ensures
            final(self).wf(),
            negates(
                old(self).heap(),
                old(self).frames@,
                *operator,
                value,
                *final(self),
                action,
                old(reporter)@,
                final(reporter)@,
            ),
    {
        match operator.token_type() {
            Type::Bang => self.go(Control::Produce(value.not())),
            _ => {
                match value.as_number(Some(operator), reporter) {
                    Ok(n) => self.ask(
                        Action::Compute {
                            operator: Arithmetic::Multiply,
                            left: n,
                            right: NEGATIVE_ONE,
                        },
                    ),
                    Err(_) => {
                        self.control = Control::Unwind(UnwindType::Error);
                        Action::Continue
                    },
                }
            },
        }
    }

    /// Applies an operator to two values.
    pub(crate) fn combine(
        &mut self,
        operator: &Token,
        left: Value,
        right: Value,
        reporter: &mut ErrorReporter,
    ) -> (action: Action)
        requires
            old(self).heap_ok(),
            frames_ok(old(self).frames@, old(self).shape()),
        ensures
            final(self).wf(),
            combines(
                old(self).heap(),
                old(self).frames@,
                *operator,
                left,
                right,
                *final(self),
                action,
                old(reporter)@,
                final(reporter)@,
            ),
    {
        match operator.token_type() {
            Type::EqualEqual => {
                let equal = left.equals(&right);
                self.go(Control::Produce(Value::from_bool(equal)))
            },
            Type::BangEqual => {
                let equal = left.equals(&right);
                self.go(Control::Produce(Value::from_bool(!equal)))
            },
            Type::Plus => {
                match left {
                    Value::Number(l) => match right {
                        Value::Number(r) => self.ask(
                            Action::Compute { operator: Arithmetic::Add, left: l, right: r },
                        ),
                        _ => self.fail(
                            operator,
                            "Operands must be either two numbers or two strings.",
                            reporter,
                        ),
                    },
                    Value::String(l) => match right {
                        Value::String(r) => {
                            let joined = l.concat(r.as_str());
                            self.control = Control::Produce(Value::String(joined));
                            Action::Continue
                        },
                        _ => self.fail(
                            operator,
                            "Operands must be either two numbers or two strings.",
                            reporter,
                        ),
                    },
                    _ => self.fail(
                        operator,
                        "Operands must be either two numbers or two strings.",
                        reporter,
                    ),
                }
            },
            kind => {
                match left.as_number(Some(operator), reporter) {
                    Ok(l) => match right.as_number(Some(operator), reporter) {
                        Ok(r) => {
                            match kind {
                                Type::Minus | Type::Slash | Type::Star => self.ask(
                                    Action::Compute {
                                        operator: arithmetic(kind),
                                        left: l,
                                        right: r,
                                    },
                                ),
                                _ => {
                                    let result = compare(kind, l, r);
                                    self.go(Control::Produce(Value::from_bool(result)))
                                },
                            }
                        },
                        Err(_) => {
                            self.control = Control::Unwind(UnwindType::Error);
                            Action::Continue
                        },
                    },
                    Err(_) => {
                        self.control = Control::Unwind(UnwindType::Error);
                        Action::Continue
                    },
                }
            },
        }
    }

    /// Stores the value of an assignment.
    pub(crate) fn assign(
        &mut self,
        name: Token,
        depth: Option<usize>,
        environment: usize,
        value: Value,
        reporter: &mut ErrorReporter,
    ) -> (action: Action)
        requires
            old(self).heap_ok(),
            frames_ok(old(self).frames@, old(self).shape()),
            environment < old(self).environments@.len(),
            depth matches Some(d) ==> d < ancestors(old(self).shape().parents, environment as int),
            value_ok(value, old(self).shape()),
        ensures
            final(self).wf(),
            assigns(
                old(self).heap(),
                old(self).frames@,
                name,
                depth,
                environment,
                value,
                *final(self),
                action,
                old(reporter)@,
                final(reporter)@,
            ),
    {
        let ghost links = parents(self.environments@);
        let ghost start = start_of(links, environment as int, depth);
        proof {
            match depth {
                Some(d) => {
                    lemma_ancestor(links, environment as int, d as nat);
                },
                None => {
                    lemma_outermost(links, environment as int);
                },
            }
            lemma_holder(self.environments@, start, name@.lexeme);
        }
        let copy = value.duplicate();
        let done = Environment::assign_at(
            &mut self.environments,
            environment,
            depth,
            name,
            copy,
            reporter,
        );
        match done {
            Some(_) => {
                proof {
                    let h = holder(old(self).environments@, start, name@.lexeme)->0;
                    self.lemma_heap_after_write(*old(self), h, name@.lexeme, value);
                }
                self.control = Control::Produce(value);
                Action::Continue
            },
            None => {
                self.control = Control::Unwind(UnwindType::Error);
                Action::Continue
            },
        }
    }

    /// Ends a call with its result.
    pub(crate) fn finish(
        &mut self,
        is_initializer: bool,
        closure: usize,
        result: Value,
        reporter: &mut ErrorReporter,
    ) -> (action: Action)
        requires
            old(self).heap_ok(),
            frames_ok(old(self).frames@, old(self).shape()),
            closure < old(self).environments@.len(),
            value_ok(result, old(self).shape()),
        ensures
            final(self).wf(),
            finishes(
                old(self).heap(),
                old(self).frames@,
                is_initializer,
                closure,
                result,
                *final(self),
                action,
                old(reporter)@,
                final(reporter)@,
            ),
    {
        if is_initializer {
            let this = Token::new(Type::This, String::from_str("this"), 0);
            let found = Environment::get(&self.environments, closure, &this, reporter);
            match found {
                Some(instance) => {
                    proof {
                        lemma_holder(self.environments@, closure as int, "this"@);
                    }
                    self.go(Control::Produce(instance))
                },
                None => {
                    self.control = Control::Unwind(UnwindType::Error);
                    Action::Continue
                },
            }
        } else {
            self.go(Control::Produce(result))
        }
    }

}

impl LoxCallable {
    /// Enters the function with its arguments: adds the scope of the call
    /// inside the function's closure, and leaves the frames that run the body.
    pub fn call(&self, interpreter: &mut Interpreter, arguments: Vec<Value>)
        requires
            old(interpreter).heap_ok(),
            frames_ok(old(interpreter).frames@, old(interpreter).shape()),
            function_ok(*self, old(interpreter).shape(), 1),
            arguments@.len() == self.params@.len(),
            forall|i: int|
                0 <= i < arguments@.len() ==> value_ok(
                    #[trigger] arguments@[i],
                    old(interpreter).shape(),
                ),
        ensures
            final(interpreter).wf(),
            enters(
                old(interpreter).heap(),
                old(interpreter).frames@,
                *self,
                arguments@,
                *final(interpreter),
            ),
    {
        let ghost shape = interpreter.shape();
        let mut scope = Environment::with_enclosing_scope(self.closure);
        let mut i: usize = 0;
        proof {
            assert(self.params@.subrange(0, 0) =~= Seq::<Token>::empty());
        }
        while i < self.params.len()
            invariant
                i <= self.params@.len(),
                arguments@.len() == self.params@.len(),
                forall|k: int| 0 <= k < arguments@.len() ==> value_ok(#[trigger] arguments@[k], shape),
                scope.enclosing == Some(self.closure),
                scope.values.map() == bind_parameters(
                    self.params@.subrange(0, i as int),
                    arguments@,
                ),
                table_ok(scope.values.map(), shape),
            decreases self.params@.len() - i,
        {
            let ghost before = scope.values.map();
            proof {
                let next = self.params@.subrange(0, i + 1);
                assert(next.drop_last() =~= self.params@.subrange(0, i as int));
                assert(next.last() == self.params@[i as int]);
                assert(value_ok(arguments@[i as int], shape));
            }
            scope.define(self.params[i].name().clone(), arguments[i].duplicate());
            proof {
                let table = scope.values.map();
                assert forall|n: Seq<char>| table.dom().contains(n) implies value_ok(
                    #[trigger] table[n],
                    shape,
                ) by {
                    if n != self.params@[i as int]@.lexeme {
                        assert(before.dom().contains(n));
                    }
                }
            }
            i += 1;
        }
        proof {
            assert(self.params@.subrange(0, i as int) =~= self.params@);
        }
        let handle = interpreter.push_scope(scope);
        proof {
            lemma_fits_extends(shape, interpreter.shape());
            assert(interpreter.environments@.subrange(0, old(interpreter).environments@.len() as int)
                =~= old(interpreter).environments@);
        }
        interpreter.push_frame(
            Frame::Call { is_initializer: self.is_initializer, closure: self.closure },
        );
        interpreter.push_frame(
            Frame::Sequence { statements: share(&self.body), next: 0, environment: handle },
        );
        interpreter.control = Control::Produce(Value::Nil);
    }

    /// Binds the method to an instance: adds the scope that holds `this`, and
    /// gives back the method with that scope as its closure.
    pub fn bind(&self, instance: usize, interpreter: &mut Interpreter) -> (function: LoxCallable)
        requires
            old(interpreter).heap_ok(),
            frames_ok(old(interpreter).frames@, old(interpreter).shape()),
            function_ok(*self, old(interpreter).shape(), 2),
            instance < old(interpreter).instances@.len(),
        ensures
            final(interpreter).heap_ok(),
            frames_ok(final(interpreter).frames@, final(interpreter).shape()),
            extends(old(interpreter).shape(), final(interpreter).shape()),
            function == bound(*self, old(interpreter).environments@.len() as usize),
            function_ok(function, final(interpreter).shape(), 1),
            final(interpreter).environments@.len() == old(interpreter).environments@.len() + 1,
            final(interpreter).environments@.subrange(
                0,
                old(interpreter).environments@.len() as int,
            ) == old(interpreter).environments@,
            final(interpreter).environments@.last().enclosing == Some(self.closure),
            final(interpreter).environments@.last().values.map() == map![
                "this"@ => Value::Instance(instance),
            ],
            final(interpreter).callables == old(interpreter).callables,
            final(interpreter).instances == old(interpreter).instances,
            final(interpreter).frames == old(interpreter).frames,
            final(interpreter).control == old(interpreter).control,
    {
        let ghost shape = interpreter.shape();
        let mut scope = Environment::with_enclosing_scope(self.closure);
        scope.define(String::from_str("this"), Value::Instance(instance));
        proof {
            assert(scope.values.map() =~= map!["this"@ => Value::Instance(instance)]);
        }
        let handle = interpreter.push_scope(scope);
        proof {
            lemma_fits_extends(shape, interpreter.shape());
            assert(interpreter.environments@.subrange(0, old(interpreter).environments@.len() as int)
                =~= old(interpreter).environments@);
        }
        self.rebound(handle)
    }
}

impl LoxClass {
    /// Calls a class: makes an instance, and enters the initializer where
    /// the class has one.
    pub fn call(class: Rc<LoxClass>, interpreter: &mut Interpreter, arguments: Vec<Value>)
        requires
            old(interpreter).heap_ok(),
            frames_ok(old(interpreter).frames@, old(interpreter).shape()),
            class_ok(*class, old(interpreter).shape()),
            arguments@.len() == crate::lox_class::class_arity(*class),
            forall|i: int|
                0 <= i < arguments@.len() ==> value_ok(
                    #[trigger] arguments@[i],
                    old(interpreter).shape(),
                ),
        ensures
            final(interpreter).wf(),
            constructs(
                old(interpreter).heap(),
                old(interpreter).frames@,
                class,
                arguments@,
                *final(interpreter),
            ),
    {
        let ghost shape = interpreter.shape();
        let instance = interpreter.add_instance(LoxInstance::new(share(&class)));
        proof {
            lemma_objects_extend(shape, interpreter.shape());
            lemma_fits_extends(shape, interpreter.shape());
            assert(interpreter.instances@.subrange(0, old(interpreter).instances@.len() as int)
                =~= old(interpreter).instances@);
        }
        let init = String::from_str("init");
        match class.find_method(&init) {
            Some(method) => {
                let function = method.bind(instance, interpreter);
                interpreter.push_frame(Frame::Construct { instance });
                proof {
                    lemma_objects_extend(shape, interpreter.shape());
                    assert forall|i: int| 0 <= i < arguments@.len() implies value_ok(
                        #[trigger] arguments@[i],
                        interpreter.shape(),
                    ) by {
                        assert(value_ok(arguments@[i], shape));
                    }
                }
                let ghost entered = interpreter.environments@;
                let ghost rest = old(interpreter).frames@;
                assert(interpreter.frames@ == rest.push(Frame::Construct { instance }));
                function.call(interpreter, arguments);
                proof {
                    let n = old(interpreter).environments@.len() as int;
                    assert(entered.len() == n + 1);
                    assert(interpreter.environments@.len() == n + 2);
                    assert(interpreter.environments@.subrange(0, n + 1) == entered);
                    assert(interpreter.environments@[n] == interpreter.environments@.subrange(
                        0,
                        n + 1,
                    )[n]);
                    assert(interpreter.environments@.subrange(0, n) =~= entered.subrange(0, n));
                    assert(entered.last() == entered[n]);
                    assert(interpreter.environments@.last() == interpreter.environments@[n + 1]);
                    assert(interpreter.instances@ == old(interpreter).instances@.push(
                        interpreter.instances@.last(),
                    ));
                    assert(interpreter.instances@.last().class == class);
                    assert(function == bound(*method, n as usize));
                    assert(*method == class.methods.map()["init"@]);
                    assert(old(interpreter).environments.len() == n);
                    assert(interpreter.environments.len() == n + 2);
                }
            },
            None => {
                interpreter.control = Control::Produce(Value::Instance(instance));
            },
        }
    }
}

impl Interpreter {
    /// Calls a value with arguments.
    pub(crate) fn invoke(
        &mut self,
        paren: &Token,
        callee: Value,
        arguments: Vec<Value>,
        reporter: &mut ErrorReporter,
    ) -> (action: Action)
        requires
            old(self).heap_ok(),
            frames_ok(old(self).frames@, old(self).shape()),
            value_ok(callee, old(self).shape()),
            forall|i: int|
                0 <= i < arguments@.len() ==> value_ok(#[trigger] arguments@[i], old(self).shape()),
        ensures
            final(self).wf(),
            invokes(
                old(self).heap(),
                old(self).frames@,
                *paren,
                callee,
                arguments@,
                *final(self),
                action,
                old(reporter)@,
                final(reporter)@,
            ),
    {
        match callee {
            Value::Callable(handle) => {
                assert(callable_ok(self.callables@[handle as int], self.shape()));
                let arity = self.callables[handle].arity();
                if arguments.len() != arity {
                    let message = arity_text(arity, arguments.len());
                    self.fail(paren, message.as_str(), reporter)
                } else {
                    match &self.callables[handle] {
                        Callable::Native(_) => self.ask(Action::Clock),
                        Callable::Function(function) => {
                            let copy = function.rebound(function.closure);
                            copy.call(self, arguments);
                            Action::Continue
                        },
                        Callable::Class(class) => {
                            let shared = share(class);
                            LoxClass::call(shared, self, arguments);
                            Action::Continue
                        },
                    }
                }
            },
            _ => self.fail(paren, "Can only call functions and classes.", reporter),
        }
    }
}

impl LoxInstance {
    /// Reads a property of the instance with the given handle: gives its
    /// field of that name, or else the method of that name of its class,
    /// bound to the instance, or else reports that there is no such
    /// property.
    pub fn get(
        interpreter: &mut Interpreter,
        this_instance: usize,
        name: &Token,
        reporter: &mut ErrorReporter,
    ) -> (value: Option<Value>)
        requires
            old(interpreter).heap_ok(),
            frames_ok(old(interpreter).frames@, old(interpreter).shape()),
            this_instance < old(interpreter).instances@.len(),
        ensures
            final(interpreter).heap_ok(),
            frames_ok(final(interpreter).frames@, final(interpreter).shape()),
            final(interpreter).frames == old(interpreter).frames,
            final(interpreter).control == old(interpreter).control,
            value == property_value(old(interpreter).heap(), this_instance, *name),
            value matches Some(v) ==> value_ok(v, final(interpreter).shape()),
            property(
                old(interpreter).heap(),
                this_instance,
                *name,
                final(interpreter).heap(),
                old(reporter)@,
                final(reporter)@,
            ),
    {
        let ghost shape = interpreter.shape();
        assert(instance_ok(interpreter.instances@[this_instance as int], shape));
        let field = match interpreter.instances[this_instance].fields.get(name.name()) {
            Some(value) => Some(value.duplicate()),
            None => None,
        };
        match field {
            Some(value) => Some(value),
            None => {
                let class = share(&interpreter.instances[this_instance].class);
                match class.find_method(name.name()) {
                    Some(method) => {
                        let function = method.bind(this_instance, interpreter);
                        let callable = interpreter.add_callable(Callable::Function(function));
                        Some(Value::Callable(callable))
                    },
                    None => {
                        let message = join3("Undefined property ", name.lexeme(), ".");
                        reporter.runtime_error_on_token(name, message.as_str());
                        None
                    },
                }
            },
        }
    }
}

/// Builds what stands for a callable when it is printed.
fn callable_string(callable: &Callable) -> (text: String)
    ensures
        text@ == crate::semantics::callable_text(*callable),
{
    match callable {
        Callable::Native(_) => String::from_str("<native fn>"),
        Callable::Function(function) => join3("<fn ", function.name.lexeme(), ">"),
        Callable::Class(class) => class.to_string(),
    }
}

impl Interpreter {
    /// Reads a property of a value.
    pub(crate) fn get_property(
        &mut self,
        name: &Token,
        object: Value,
        reporter: &mut ErrorReporter,
    ) -> (action: Action)
        requires
            old(self).heap_ok(),
            frames_ok(old(self).frames@, old(self).shape()),
            value_ok(object, old(self).shape()),
        ensures
            final(self).wf(),
            gets(
                old(self).heap(),
                old(self).frames@,
                *name,
                object,
                *final(self),
                action,
                old(reporter)@,
                final(reporter)@,
            ),
    {
        match object {
            Value::Instance(handle) => {
                match LoxInstance::get(self, handle, name, reporter) {
                    Some(value) => self.go(Control::Produce(value)),
                    None => self.go(Control::Unwind(UnwindType::Error)),
                }
            },
            _ => self.fail(name, "Only instances have properties.", reporter),
        }
    }

    /// Gives a field of an instance a value.
    pub(crate) fn set_property(&mut self, name: &Token, instance: usize, value: Value) -> (action:
        Action)
        requires
            old(self).heap_ok(),
            frames_ok(old(self).frames@, old(self).shape()),
            instance < old(self).instances@.len(),
            value_ok(value, old(self).shape()),
        ensures
            final(self).wf(),
            with_field(
                old(self).instances@,
                instance as int,
                name@.lexeme,
                value,
                final(self).instances@,
            ),
            final(self).environments == old(self).environments,
            final(self).callables == old(self).callables,
            final(self).control == Control::Produce(value),
            final(self).frames == old(self).frames,
            action is Continue,
    {
        let ghost shape = self.shape();
        let copy = value.duplicate();
        let slot: &mut LoxInstance = &mut self.instances[instance];
        slot.set(name, copy);
        proof {
            assert forall|i: int| 0 <= i < self.instances@.len() implies instance_ok(
                #[trigger] self.instances@[i],
                shape,
            ) by {
                assert(instance_ok(old(self).instances@[i], shape));
                if i == instance {
                    let table = self.instances@[i].fields.map();
                    assert forall|n: Seq<char>| table.dom().contains(n) implies value_ok(
                        #[trigger] table[n],
                        shape,
                    ) by {
                        if n != name@.lexeme {
                            assert(old(self).instances@[i].fields.map().dom().contains(n));
                        }
                    }
                }
            }
            assert forall|i: int| 0 <= i < self.environments@.len() implies table_ok(
                (#[trigger] self.environments@[i]).values.map(),
                shape,
            ) by {
                assert(table_ok(old(self).environments@[i].values.map(), shape));
            }
            assert forall|i: int| 0 <= i < self.callables@.len() implies callable_ok(
                #[trigger] self.callables@[i],
                shape,
            ) by {
                assert(callable_ok(old(self).callables@[i], shape));
            }
        }
        self.control = Control::Produce(value);
        Action::Continue
    }

    /// Prints a value.
    pub(crate) fn print(&mut self, value: Value) -> (action: Action)
        requires
            old(self).heap_ok(),
            frames_ok(old(self).frames@, old(self).shape()),
            value_ok(value, old(self).shape()),
        ensures
            final(self).wf(),
            prints(
                old(self).heap(),
                old(self).frames@,
                value,
                *final(self),
                action,
            ),
    {
        let action = match value {
            Value::String(text) => Action::Print(text),
            Value::Number(bits) => Action::PrintNumber(bits),
            Value::True => Action::Print(String::from_str("true")),
            Value::False => Action::Print(String::from_str("false")),
            Value::Nil => Action::Print(String::from_str("nil")),
            Value::Callable(handle) => Action::Print(callable_string(&self.callables[handle])),
            Value::Instance(handle) => Action::Print(self.instances[handle].to_string()),
        };
        self.control = Control::Produce(Value::Nil);
        action
    }
}

impl Interpreter {
    /// Hands a value to a frame that has been taken off the stack.
    pub(crate) fn resume(&mut self, frame: Frame, value: Value, reporter: &mut ErrorReporter) -> (action:
        Action)
        requires
            old(self).heap_ok(),
            frames_ok(old(self).frames@, old(self).shape()),
            frame_ok(frame, old(self).shape()),
            value_ok(value, old(self).shape()),
        ensures
            final(self).wf(),
            resumes(
                old(self).heap(),
                old(self).frames@,
                frame,
                value,
                *final(self),
                action,
                old(reporter)@,
                final(reporter)@,
            ),
    {
        match frame {
            Frame::Unary { operator } => self.negate(&operator, value, reporter),
            Frame::BinaryLeft { operator, right, environment } => {
                self.push_frame(Frame::BinaryRight { operator, left: value });
                self.go(Control::Evaluate { expression: right, environment })
            },
            Frame::BinaryRight { operator, left } => self.combine(&operator, left, value, reporter),
            Frame::Assign { name, depth, environment } => self.assign(
                name,
                depth,
                environment,
                value,
                reporter,
            ),
            Frame::Logical { operator, right, environment } => {
                let is_or = match operator.token_type() {
                    Type::Or => true,
                    _ => false,
                };
                if is_or == value.is_truthy() {
                    self.go(Control::Produce(value))
                } else {
                    self.go(Control::Evaluate { expression: right, environment })
                }
            },
            Frame::Callee { paren, arguments, environment } => {
                if arguments.len() == 0 {
                    let none: Vec<Value> = Vec::new();
                    proof {
                        assert(none@ =~= Seq::<Value>::empty());
                    }
                    self.invoke(&paren, value, none, reporter)
                } else {
                    let first = share(&arguments[0]);
                    let ghost rest = self.frames@;
                    self.push_frame(
                        Frame::Argument {
                            paren,
                            callee: value,
                            arguments,
                            values: Vec::new(),
                            environment,
                        },
                    );
                    proof {
                        assert(self.frames@.drop_last() =~= rest);
                    }
                    self.go(Control::Evaluate { expression: first, environment })
                }
            },
            Frame::Argument { paren, callee, arguments, values, environment } => {
                let mut values = values;
                values.push(value);
                if values.len() >= arguments.len() {
                    self.invoke(&paren, callee, values, reporter)
                } else {
                    let next = share(&arguments[values.len()]);
                    let ghost rest = self.frames@;
                    self.push_frame(
                        Frame::Argument { paren, callee, arguments, values, environment },
                    );
                    proof {
                        assert(self.frames@.drop_last() =~= rest);
                    }
                    self.go(Control::Evaluate { expression: next, environment })
                }
            },
            Frame::GetObject { name } => self.get_property(&name, value, reporter),
            Frame::SetObject { name, value: expression, environment } => {
                match value {
                    Value::Instance(instance) => {
                        self.push_frame(Frame::SetValue { name, instance });
                        self.go(Control::Evaluate { expression, environment })
                    },
                    _ => self.fail(&name, "Only instances have properties.", reporter),
                }
            },
            Frame::SetValue { name, instance } => self.set_property(&name, instance, value),
            Frame::Print => self.print(value),
            Frame::Define { name, environment } => {
                self.define_in(environment, name.name().clone(), value);
                self.go(Control::Produce(Value::Nil))
            },
            Frame::Branch { then_branch, else_branch, environment } => {
                if value.is_truthy() {
                    self.go(Control::Execute { statement: then_branch, environment })
                } else {
                    match else_branch {
                        Some(statement) => self.go(Control::Execute { statement, environment }),
                        None => self.go(Control::Produce(Value::Nil)),
                    }
                }
            },
            Frame::Loop { condition, body, environment } => {
                if value.is_truthy() {
                    let statement = share(&body);
                    self.push_frame(Frame::Again { condition, body, environment });
                    self.go(Control::Execute { statement, environment })
                } else {
                    self.go(Control::Produce(Value::Nil))
                }
            },
            Frame::Again { condition, body, environment } => {
                let expression = share(&condition);
                self.push_frame(Frame::Loop { condition, body, environment });
                self.go(Control::Evaluate { expression, environment })
            },
            Frame::Sequence { statements, next, environment } => {
                if next < statements.len() {
                    let statement = share(&statements[next]);
                    proof {
                        assert(statement_views(statements@)[next as int] == statement@);
                    }
                    self.push_frame(Frame::Sequence { statements, next: next + 1, environment });
                    self.go(Control::Execute { statement, environment })
                } else {
                    self.go(Control::Produce(Value::Nil))
                }
            },
            Frame::ReturnValue => self.go(Control::Unwind(UnwindType::Return(value))),
            Frame::Call { is_initializer, closure } => self.finish(
                is_initializer,
                closure,
                Value::Nil,
                reporter,
            ),
            Frame::Construct { instance } => self.go(Control::Produce(Value::Instance(instance))),
        }
    }

    /// Ends the run.
    pub(crate) fn end(&mut self) -> (action: Action)
        requires
            old(self).heap_ok(),
        ensures
            final(self).wf(),
            moves(old(self).heap(), *final(self), Control::Idle, Seq::empty()),
            action is Finished,
    {
        self.frames = Vec::new();
        self.control = Control::Idle;
        Action::Finished
    }

    /// Leaves a frame.
    pub(crate) fn unwind(&mut self, unwind: UnwindType, reporter: &mut ErrorReporter) -> (action: Action)
        requires
            old(self).heap_ok(),
            frames_ok(old(self).frames@, old(self).shape()),
            unwind matches UnwindType::Return(value) ==> value_ok(value, old(self).shape()),
        ensures
            final(self).wf(),
            unwinds(
                old(self).heap(),
                old(self).frames@,
                unwind,
                *final(self),
                action,
                old(reporter)@,
                final(reporter)@,
            ),
    {
        let ghost frames = self.frames@;
        match self.frames.pop() {
            None => self.end(),
            Some(frame) => {
                proof {
                    assert(frame_ok(frames[frames.len() - 1], self.shape()));
                    assert forall|i: int| 0 <= i < self.frames@.len() implies frame_ok(
                        #[trigger] self.frames@[i],
                        self.shape(),
                    ) by {
                        assert(self.frames@[i] == frames[i]);
                    }
                    assert(self.frames@ =~= frames.drop_last());
                }
                match unwind {
                    UnwindType::Return(value) => match frame {
                        Frame::Call { is_initializer, closure } => self.finish(
                            is_initializer,
                            closure,
                            value,
                            reporter,
                        ),
                        _ => self.go(Control::Unwind(UnwindType::Return(value))),
                    },
                    UnwindType::Error => self.go(Control::Unwind(UnwindType::Error)),
                }
            },
        }
    }

    /// Takes the host's answer to a request.
    pub(crate) fn answer(
        &mut self,
        request: Action,
        event: Event,
        reporter: &mut ErrorReporter,
    ) -> (action: Action)
        requires
            old(self).heap_ok(),
            frames_ok(old(self).frames@, old(self).shape()),
            request is Compute || request is ParseNumber || request is Clock,
        ensures
            final(self).wf(),
            answers(
                old(self).heap(),
                old(self).frames@,
                request,
                event,
                *final(self),
                action,
                old(reporter)@,
                final(reporter)@,
            ),
    {
        match event {
            Event::Number(bits) => self.go(Control::Produce(Value::Number(bits))),
            Event::Failed => match request {
                Action::Clock => {
                    reporter.runtime_error(
                        "Unable to determine offset from UNIX epoch: Time is going backwards!",
                    );
                    self.control = Control::Unwind(UnwindType::Error);
                    Action::Continue
                },
                other => self.ask(other),
            },
            Event::Resume => self.ask(request),
        }
    }

    /// Makes one transition, and says what the host is to do before the
    /// next: the host performs the action and hands its answer, if the
    /// action asks for one, to the next transition.
    pub fn step(&mut self, event: Event, reporter: &mut ErrorReporter) -> (action: Action)
        requires
            old(self).wf(),
        ensures
            final(self).wf(),
            transition(*old(self), event, *final(self), action, old(reporter)@, final(reporter)@),
    {
        let mut control = Control::Idle;
        core::mem::swap(&mut self.control, &mut control);
        match control {
            Control::Idle => Action::Finished,
            Control::Evaluate { expression, environment } => Expression::interpret(
                &expression,
                environment,
                self,
                reporter,
            ),
            Control::Execute { statement, environment } => Statement::interpret(
                &statement,
                environment,
                self,
                reporter,
            ),
            Control::Produce(value) => {
                let ghost frames = self.frames@;
                match self.frames.pop() {
                    None => self.end(),
                    Some(frame) => {
                        proof {
                            assert(frame_ok(frames[frames.len() - 1], self.shape()));
                            assert forall|i: int| 0 <= i < self.frames@.len() implies frame_ok(
                                #[trigger] self.frames@[i],
                                self.shape(),
                            ) by {
                                assert(self.frames@[i] == frames[i]);
                            }
                            assert(self.frames@ =~= frames.drop_last());
                        }
                        self.resume(frame, value, reporter)
                    },
                }
            },
            Control::Unwind(unwind) => self.unwind(unwind, reporter),
            Control::Await(request) => self.answer(request, event, reporter),
        }
    }
}

} // verus!
