//! The first transition of an expression and of a statement.

use std::rc::Rc;
use vstd::prelude::*;
use crate::callable::{Callable, LoxCallable};
use crate::environment::{
    ancestors,
    lemma_ancestor,
    lemma_holder,
    lemma_outermost,
    parents,
    start_of,
    Environment,
};
use crate::error_reporter::ErrorReporter;
use crate::expression::Expression;
use crate::interpreter::Interpreter;
use crate::lox_class::LoxClass;
use crate::machine::{
    expression_fits,
    frames_ok,
    function_ok,
    statement_fits,
    Action,
    Control,
    Frame,
};
use crate::semantics::{evaluates, executes, methods_of, reads};
use crate::statement::{
    statement_scoped,
    statement_views,
    statement_well_formed,
    Statement,
};
use crate::table::Table;
use crate::text::{same_text, share};
use crate::token::{Literal, Token};
use crate::value::{UnwindType, Value};

verus! {

impl Interpreter {
    /// Reads a variable from a scope.
    pub(crate) fn read(
        &mut self,
        name: &Token,
        depth: Option<usize>,
        environment: usize,
        reporter: &mut ErrorReporter,
    ) -> (action: Action)
        requires
            old(self).heap_ok(),
            frames_ok(old(self).frames@, old(self).shape()),
            environment < old(self).environments@.len(),
            depth matches Some(d) ==> d < ancestors(old(self).shape().parents, environment as int),
        ensures
            final(self).wf(),
            reads(
                old(self).heap(),
                old(self).frames@,
                *name,
                depth,
                environment,
                *final(self),
                action,
                old(reporter)@,
                final(reporter)@,
            ),
    {
        let found = Environment::get_at(&self.environments, environment, depth, name, reporter);
        match found {
            Some(value) => {
                proof {
                    let links = parents(self.environments@);
                    let start = start_of(links, environment as int, depth);
                    match depth {
                        Some(d) => {
                            lemma_ancestor(links, environment as int, d as nat);
                        },
                        None => {
                            lemma_outermost(links, environment as int);
                        },
                    }
                    lemma_holder(self.environments@, start, name@.lexeme);
                }
                self.go(Control::Produce(value))
            },
            None => {
                self.control = Control::Unwind(UnwindType::Error);
                Action::Continue
            },
        }
    }
}

impl Expression {
    /// Makes the first transition of an expression in a scope.
    pub fn interpret(
        expression: &Rc<Expression>,
        environment: usize,
        interpreter: &mut Interpreter,
        reporter: &mut ErrorReporter,
    ) -> (action: Action)
        requires
            old(interpreter).heap_ok(),
            frames_ok(old(interpreter).frames@, old(interpreter).shape()),
            expression_fits(**expression, environment, old(interpreter).shape()),
        ensures
            final(interpreter).wf(),
            evaluates(
                old(interpreter).heap(),
                old(interpreter).frames@,
                **expression,
                environment,
                *final(interpreter),
                action,
                old(reporter)@,
                final(reporter)@,
            ),
    {
        match &**expression {
            Expression::Literal { value } => match value {
                Literal::String(text) => interpreter.go(
                    Control::Produce(Value::String(text.clone())),
                ),
                Literal::Number(digits) => {
                    interpreter.control = Control::Await(Action::ParseNumber(digits.clone()));
                    Action::ParseNumber(digits.clone())
                },
                Literal::True => interpreter.go(Control::Produce(Value::True)),
                Literal::False => interpreter.go(Control::Produce(Value::False)),
                Literal::Nil => interpreter.go(Control::Produce(Value::Nil)),
            },
            Expression::Grouping { expression: inner } => interpreter.go(
                Control::Evaluate { expression: share(inner), environment },
            ),
            Expression::Unary { operator, right } => {
                interpreter.push_frame(Frame::Unary { operator: operator.duplicate() });
                interpreter.go(Control::Evaluate { expression: share(right), environment })
            },
            Expression::Binary { left, operator, right } => {
                interpreter.push_frame(
                    Frame::BinaryLeft {
                        operator: operator.duplicate(),
                        right: share(right),
                        environment,
                    },
                );
                interpreter.go(Control::Evaluate { expression: share(left), environment })
            },
            Expression::Variable { name, depth } => interpreter.read(
                name,
                *depth,
                environment,
                reporter,
            ),
            Expression::This { keyword, depth } => interpreter.read(
                keyword,
                *depth,
                environment,
                reporter,
            ),
            Expression::Assignment { name, value, depth } => {
                interpreter.push_frame(
                    Frame::Assign { name: name.duplicate(), depth: *depth, environment },
                );
                interpreter.go(Control::Evaluate { expression: share(value), environment })
            },
            Expression::Logical { left, operator, right } => {
                interpreter.push_frame(
                    Frame::Logical {
                        operator: operator.duplicate(),
                        right: share(right),
                        environment,
                    },
                );
                interpreter.go(Control::Evaluate { expression: share(left), environment })
            },
            Expression::Call { callee, paren, arguments } => {
                proof {
                    let shape = interpreter.shape();
                    assert forall|i: int| 0 <= i < arguments@.len() implies expression_fits(
                        *#[trigger] arguments@[i],
                        environment,
                        shape,
                    ) by {
                        assert(expression@->Call_arguments[i] == arguments@[i]@);
                    }
                }
                interpreter.push_frame(
                    Frame::Callee {
                        paren: paren.duplicate(),
                        arguments: share(arguments),
                        environment,
                    },
                );
                interpreter.go(Control::Evaluate { expression: share(callee), environment })
            },
            Expression::Get { object, name } => {
                interpreter.push_frame(Frame::GetObject { name: name.duplicate() });
                interpreter.go(Control::Evaluate { expression: share(object), environment })
            },
            Expression::SetProperty { object, name, value } => {
                interpreter.push_frame(
                    Frame::SetObject { name: name.duplicate(), value: share(value), environment },
                );
                interpreter.go(Control::Evaluate { expression: share(object), environment })
            },
        }
    }
}

/// Builds the methods of a class from its declaration.
fn build_methods(methods: &Vec<Rc<Statement>>, closure: usize, interpreter: &Interpreter) -> (table:
    Table<LoxCallable>)
    requires
        closure < interpreter.environments@.len(),
        forall|i: int|
            0 <= i < methods@.len() ==> (#[trigger] statement_views(methods@)[i]) is Function
                && statement_scoped(
                statement_views(methods@)[i],
                ancestors(interpreter.shape().parents, closure as int) + 1,
            ) && statement_well_formed(statement_views(methods@)[i]),
    ensures
        table.map() == methods_of(methods@, closure),
        forall|name: Seq<char>|
            table.map().dom().contains(name) ==> function_ok(
                #[trigger] table.map()[name],
                interpreter.shape(),
                2,
            ),
{
    let ghost shape = interpreter.shape();
    let ghost views = statement_views(methods@);
    let mut table: Table<LoxCallable> = Table::new();
    let mut i: usize = 0;
    proof {
        assert(methods@.subrange(0, 0) =~= Seq::<Rc<Statement>>::empty());
    }
    while i < methods.len()
        invariant
            i <= methods@.len(),
            shape == interpreter.shape(),
            views == statement_views(methods@),
            closure < interpreter.environments@.len(),
            forall|k: int|
                0 <= k < methods@.len() ==> (#[trigger] views[k]) is Function && statement_scoped(
                    views[k],
                    ancestors(shape.parents, closure as int) + 1,
                ) && statement_well_formed(views[k]),
            table.map() == methods_of(methods@.subrange(0, i as int), closure),
            forall|name: Seq<char>|
                table.map().dom().contains(name) ==> function_ok(
                    #[trigger] table.map()[name],
                    shape,
                    2,
                ),
        decreases methods@.len() - i,
    {
        proof {
            assert(methods@.subrange(0, i + 1).drop_last() =~= methods@.subrange(0, i as int));
            assert(methods@.subrange(0, i + 1).last() == methods@[i as int]);
            assert(views[i as int] is Function);
        }
        match &*methods[i] {
            Statement::Function { name, params, body } => {
                let initializer = same_text(name.name(), "init");
                let method = LoxCallable::new(
                    name.duplicate(),
                    share(params),
                    share(body),
                    closure,
                    initializer,
                );
                proof {
                    assert(views[i as int]->Function_body =~= statement_views(body@));
                    assert(function_ok(method, shape, 2));
                }
                let ghost before = table.map();
                table.insert(name.name().clone(), method);
                proof {
                    assert forall|n: Seq<char>| table.map().dom().contains(n) implies function_ok(
                        #[trigger] table.map()[n],
                        shape,
                        2,
                    ) by {
                        if n != name@.lexeme {
                            assert(before.dom().contains(n));
                        }
                    }
                }
            },
            _ => {},
        }
        i += 1;
    }
    proof {
        assert(methods@.subrange(0, i as int) =~= methods@);
    }
    table
}

impl Statement {
    /// Makes the first transition of a statement in a scope.
    pub fn interpret(
        statement: &Rc<Statement>,
        environment: usize,
        interpreter: &mut Interpreter,
        reporter: &mut ErrorReporter,
    ) -> (action: Action)
        requires
            old(interpreter).heap_ok(),
            frames_ok(old(interpreter).frames@, old(interpreter).shape()),
            statement_fits(**statement, environment, old(interpreter).shape()),
        ensures
            final(interpreter).wf(),
            executes(
                old(interpreter).heap(),
                old(interpreter).frames@,
                **statement,
                environment,
                *final(interpreter),
                action,
                old(reporter)@,
                final(reporter)@,
            ),
    {
        match &**statement {
            Statement::Expression { expression } => interpreter.go(
                Control::Evaluate { expression: share(expression), environment },
            ),
            Statement::Print { expression } => {
                interpreter.push_frame(Frame::Print);
                interpreter.go(Control::Evaluate { expression: share(expression), environment })
            },
            Statement::Var { name, initializer } => {
                interpreter.push_frame(Frame::Define { name: name.duplicate(), environment });
                match initializer {
                    Some(expression) => interpreter.go(
                        Control::Evaluate { expression: share(expression), environment },
                    ),
                    None => interpreter.go(Control::Produce(Value::Nil)),
                }
            },
            Statement::Block { statements } => {
                let scope = interpreter.push_scope(Environment::with_enclosing_scope(environment));
                proof {
                    assert(statement@->statements =~= statement_views(statements@));
                    assert(interpreter.environments@.subrange(
                        0,
                        old(interpreter).environments@.len() as int,
                    ) =~= old(interpreter).environments@);
                }
                interpreter.push_frame(
                    Frame::Sequence { statements: share(statements), next: 0, environment: scope },
                );
                interpreter.go(Control::Produce(Value::Nil))
            },
            Statement::If { condition, then_branch, else_branch } => {
                let other = match else_branch {
                    Some(branch) => Some(share(branch)),
                    None => None,
                };
                interpreter.push_frame(
                    Frame::Branch {
                        then_branch: share(then_branch),
                        else_branch: other,
                        environment,
                    },
                );
                interpreter.go(Control::Evaluate { expression: share(condition), environment })
            },
            Statement::While { condition, body } => {
                interpreter.push_frame(
                    Frame::Loop { condition: share(condition), body: share(body), environment },
                );
                interpreter.go(Control::Evaluate { expression: share(condition), environment })
            },
            Statement::Function { name, params, body } => {
                let function = LoxCallable::new(
                    name.duplicate(),
                    share(params),
                    share(body),
                    environment,
                    false,
                );
                proof {
                    assert(statement@->Function_body =~= statement_views(body@));
                }
                let handle = interpreter.add_callable(Callable::Function(function));
                interpreter.define_in(environment, name.name().clone(), Value::Callable(handle));
                interpreter.go(Control::Produce(Value::Nil))
            },
            Statement::Return { keyword, value } => {
                match value {
                    Some(expression) => {
                        interpreter.push_frame(Frame::ReturnValue);
                        interpreter.go(
                            Control::Evaluate { expression: share(expression), environment },
                        )
                    },
                    None => interpreter.go(Control::Unwind(UnwindType::Return(Value::Nil))),
                }
            },
            Statement::Class { name, methods } => {
                proof {
                    assert(statement@->methods =~= statement_views(methods@));
                }
                let table = build_methods(methods, environment, interpreter);
                let class = LoxClass::new(name.name().clone(), table);
                let handle = interpreter.add_callable(Callable::Class(Rc::new(class)));
                proof {
                    assert(interpreter.callables@.subrange(
                        0,
                        old(interpreter).callables@.len() as int,
                    ) =~= old(interpreter).callables@);
                }
                interpreter.define_in(environment, name.name().clone(), Value::Callable(handle));
                interpreter.go(Control::Produce(Value::Nil))
            },
        }
    }
}

} // verus!
