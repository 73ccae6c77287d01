//! The interpreter: a transition system over the syntax tree.

use std::rc::Rc;
use vstd::prelude::*;
use vstd::string::StringExecFns;
use crate::callable::{Callable, NativeClock};
use crate::environment::{
    ancestors,
    chained,
    lemma_ancestors_prefix,
    parents,
    with_value,
    Environment,
};
use crate::error_reporter::ErrorReporter;
use crate::lox_class::LoxInstance;
use crate::machine::{
    callable_ok,
    control_ok,
    extends,
    frame_ok,
    frames_ok,
    instance_ok,
    lemma_fits_extends,
    lemma_frames_extend,
    lemma_objects_extend,
    table_ok,
    value_ok,
    Action,
    Control,
    Frame,
    Shape,
};
use crate::semantics::{fails, moves, same_heap};
use crate::token::Token;
use crate::statement::{
    program_view,
    statement_views,
    statements_scoped,
    statements_well_formed,
    Statement,
};
use crate::value::{UnwindType, Value};

verus! {

/// The interpreter: the heap of a session (scopes, callables, instances),
/// what it does next, and the frames that wait for a value. The global scope
/// has the handle 0.
pub struct Interpreter {
    pub environments: Vec<Environment>,
    pub callables: Vec<Callable>,
    pub instances: Vec<LoxInstance>,
    pub control: Control,
    pub frames: Vec<Frame>,
}

impl Interpreter {
    /// The extent of the heap.
    pub open spec fn shape(&self) -> Shape {
        Shape {
            parents: parents(self.environments@),
            callables: self.callables@.len(),
            instances: self.instances@.len(),
        }
    }

    /// Whether the heap is well formed: there is a global scope, every scope
    /// lies inside a scope with a smaller handle, and every handle that an
    /// object holds is a handle of the heap.
    pub open spec fn heap_ok(&self) -> bool {
        &&& self.environments@.len() > 0
        &&& chained(parents(self.environments@))
        &&& forall|i: int|
            0 <= i < self.environments@.len() ==> table_ok(
                (#[trigger] self.environments@[i]).values.map(),
                self.shape(),
            )
        &&& forall|i: int|
            0 <= i < self.callables@.len() ==> callable_ok(
                #[trigger] self.callables@[i],
                self.shape(),
            )
        &&& forall|i: int|
            0 <= i < self.instances@.len() ==> instance_ok(
                #[trigger] self.instances@[i],
                self.shape(),
            )
    }

    /// Whether the interpreter is well formed: its heap is, every frame can
    /// take a value, and what is next can be done.
    pub open spec fn wf(&self) -> bool {
        &&& self.heap_ok()
        &&& frames_ok(self.frames@, self.shape())
        &&& control_ok(self.control, self.shape())
    }

    /// An interpreter with nothing to do, whose global scope holds the
    /// native function `clock`.
    pub fn new() -> (interpreter: Interpreter)
        ensures
            interpreter.wf(),
            interpreter.control is Idle,
            interpreter.frames@.len() == 0,
            interpreter.environments@.len() == 1,
            interpreter.environments@[0].enclosing is None,
            interpreter.environments@[0].values.map() == map!["clock"@ => Value::Callable(0)],
            interpreter.callables@ == seq![Callable::Native(NativeClock {  })],
            interpreter.instances@.len() == 0,
    {
        let mut globals = Environment::new();
        globals.define(String::from_str("clock"), Value::Callable(0));
        let mut environments: Vec<Environment> = Vec::new();
        environments.push(globals);
        let mut callables: Vec<Callable> = Vec::new();
        callables.push(Callable::Native(NativeClock::new()));
        let interpreter = Interpreter {
            environments,
            callables,
            instances: Vec::new(),
            control: Control::Idle,
            frames: Vec::new(),
        };
        proof {
            assert(interpreter.callables@ =~= seq![Callable::Native(NativeClock {  })]);
            assert(interpreter.environments@[0].values.map() =~= map![
                "clock"@ => Value::Callable(0),
            ]);
        }
        interpreter
    }

    /// Starts a run of a program in the global scope. The heap stays as the
    /// runs before have left it.
    pub fn interpret(&mut self, statements: Vec<Statement>)
        requires
            old(self).heap_ok(),
            statements_scoped(program_view(statements@), 0),
            statements_well_formed(program_view(statements@)),
        ensures
            final(self).wf(),
            final(self).environments == old(self).environments,
            final(self).callables == old(self).callables,
            final(self).instances == old(self).instances,
            final(self).control == Control::Produce(Value::Nil),
            final(self).frames@.len() == 1,
            final(self).frames@[0] matches Frame::Sequence { statements: list, next, environment }
                && next == 0 && environment == 0 && statement_views(list@) == program_view(
                statements@,
            ),
    {
        let ghost program = program_view(statements@);
        let mut list: Vec<Rc<Statement>> = Vec::new();
        for statement in it: statements
            invariant
                list@.len() == it.index(),
                forall|j: int| 0 <= j < list@.len() ==> *(#[trigger] list@[j]) == it.seq()[j],
        {
            list.push(Rc::new(statement));
        }
        proof {
            assert(statement_views(list@) =~= program);
        }
        self.frames = Vec::new();
        self.frames.push(Frame::Sequence { statements: Rc::new(list), next: 0, environment: 0 });
        self.control = Control::Produce(Value::Nil);
    }
}

/// Giving a variable a value leaves every scope where it is.
pub proof fn lemma_with_value_parents(
    before: Seq<Environment>,
    at: int,
    name: Seq<char>,
    value: Value,
    after: Seq<Environment>,
)
    requires
        0 <= at < before.len(),
        with_value(before, at, name, value, after),
    ensures
        parents(after) == parents(before),
{
    assert(parents(after) =~= parents(before));
}

impl Interpreter {
    /// The interpreter with nothing next.
    pub open spec fn idle(self) -> Interpreter {
        Interpreter { control: Control::Idle, ..self }
    }

    /// The interpreter with nothing next and its innermost frame taken off.
    pub open spec fn resumed(self, rest: Vec<Frame>) -> Interpreter {
        Interpreter { control: Control::Idle, frames: rest, ..self }
    }

    /// Adds a frame.
    pub(crate) fn push_frame(&mut self, frame: Frame)
        requires
            frames_ok(old(self).frames@, old(self).shape()),
            frame_ok(frame, old(self).shape()),
        ensures
            final(self).frames@ == old(self).frames@.push(frame),
            frames_ok(final(self).frames@, final(self).shape()),
            same_heap(*old(self), *final(self)),
            final(self).control == old(self).control,
    {
        self.frames.push(frame);
    }

    /// Adds a scope to the heap, and gives back its handle.
    pub(crate) fn push_scope(&mut self, environment: Environment) -> (handle: usize)
        requires
            old(self).heap_ok(),
            frames_ok(old(self).frames@, old(self).shape()),
            environment.enclosing matches Some(p) && p < old(self).environments@.len(),
            table_ok(environment.values.map(), old(self).shape()),
        ensures
            final(self).heap_ok(),
            frames_ok(final(self).frames@, final(self).shape()),
            extends(old(self).shape(), final(self).shape()),
            handle == old(self).environments@.len(),
            final(self).environments@ == old(self).environments@.push(environment),
            ancestors(final(self).shape().parents, handle as int) == ancestors(
                old(self).shape().parents,
                environment.enclosing->0 as int,
            ) + 1,
            final(self).callables == old(self).callables,
            final(self).instances == old(self).instances,
            final(self).frames == old(self).frames,
            final(self).control == old(self).control,
    {
        let handle = self.environments.len();
        self.environments.push(environment);
        proof {
            let before = old(self).shape();
            let after = self.shape();
            assert(after.parents =~= before.parents.push(environment.enclosing));
            let p = environment.enclosing->0;
            assert(after.parents[handle as int] == Some(p));
            lemma_ancestors_prefix(before.parents, after.parents, p as int);
            assert(ancestors(after.parents, handle as int) == 1 + ancestors(
                after.parents,
                p as int,
            ));
            lemma_objects_extend(before, after);
            lemma_frames_extend(self.frames@, before, after);
            lemma_fits_extends(before, after);
            assert forall|i: int| 0 <= i < self.environments@.len() implies table_ok(
                (#[trigger] self.environments@[i]).values.map(),
                after,
            ) by {
                if i < handle {
                    assert(self.environments@[i] == old(self).environments@[i]);
                    assert(table_ok(old(self).environments@[i].values.map(), before));
                }
            }
            assert forall|i: int| 0 <= i < self.callables@.len() implies callable_ok(
                #[trigger] self.callables@[i],
                after,
            ) by {
                assert(callable_ok(old(self).callables@[i], before));
            }
            assert forall|i: int| 0 <= i < self.instances@.len() implies instance_ok(
                #[trigger] self.instances@[i],
                after,
            ) by {
                assert(instance_ok(old(self).instances@[i], before));
            }
        }
        handle
    }

    /// Gives a name a value in a scope.
    pub(crate) fn define_in(&mut self, environment: usize, name: String, value: Value)
        requires
            old(self).heap_ok(),
            environment < old(self).environments@.len(),
            value_ok(value, old(self).shape()),
        ensures
            final(self).heap_ok(),
            final(self).shape() == old(self).shape(),
            with_value(
                old(self).environments@,
                environment as int,
                name@,
                value,
                final(self).environments@,
            ),
            final(self).callables == old(self).callables,
            final(self).instances == old(self).instances,
            final(self).frames == old(self).frames,
            final(self).control == old(self).control,
    {
        let slot: &mut Environment = &mut self.environments[environment];
        slot.define(name, value);
        proof {
            lemma_with_value_parents(
                old(self).environments@,
                environment as int,
                name@,
                value,
                self.environments@,
            );
            self.lemma_heap_after_write(*old(self), environment as int, name@, value);
        }
    }

    /// The heap is well formed after a variable has been given a value of
    /// the heap.
    pub proof fn lemma_heap_after_write(
        self,
        before: Interpreter,
        at: int,
        name: Seq<char>,
        value: Value,
    )
        requires
            before.heap_ok(),
            0 <= at < before.environments@.len(),
            value_ok(value, before.shape()),
            with_value(before.environments@, at, name, value, self.environments@),
            self.callables == before.callables,
            self.instances == before.instances,
        ensures
            self.heap_ok(),
            self.shape() == before.shape(),
    {
        lemma_with_value_parents(before.environments@, at, name, value, self.environments@);
        let shape = before.shape();
        assert forall|i: int| 0 <= i < self.environments@.len() implies table_ok(
            (#[trigger] self.environments@[i]).values.map(),
            shape,
        ) by {
            assert(table_ok(before.environments@[i].values.map(), shape));
            if i == at {
                let table = self.environments@[i].values.map();
                assert forall|n: Seq<char>| table.dom().contains(n) implies value_ok(
                    #[trigger] table[n],
                    shape,
                ) by {
                    if n != name {
                        assert(before.environments@[i].values.map().dom().contains(n));
                    }
                }
            }
        }
    }

    /// Adds a callable to the heap, and gives back its handle.
    pub(crate) fn add_callable(&mut self, callable: Callable) -> (handle: usize)
        requires
            old(self).heap_ok(),
            frames_ok(old(self).frames@, old(self).shape()),
            callable_ok(callable, old(self).shape()),
        ensures
            final(self).heap_ok(),
            frames_ok(final(self).frames@, final(self).shape()),
            extends(old(self).shape(), final(self).shape()),
            final(self).shape().parents == old(self).shape().parents,
            handle == old(self).callables@.len(),
            final(self).callables@ == old(self).callables@.push(callable),
            final(self).environments == old(self).environments,
            final(self).instances == old(self).instances,
            final(self).frames == old(self).frames,
            final(self).control == old(self).control,
    {
        let handle = self.callables.len();
        self.callables.push(callable);
        proof {
            let before = old(self).shape();
            let after = self.shape();
            lemma_objects_extend(before, after);
            lemma_frames_extend(self.frames@, before, after);
            assert forall|i: int| 0 <= i < self.environments@.len() implies table_ok(
                (#[trigger] self.environments@[i]).values.map(),
                after,
            ) by {
                assert(table_ok(old(self).environments@[i].values.map(), before));
            }
            assert forall|i: int| 0 <= i < self.callables@.len() implies callable_ok(
                #[trigger] self.callables@[i],
                after,
            ) by {
                if i < handle {
                    assert(callable_ok(old(self).callables@[i], before));
                }
            }
            assert forall|i: int| 0 <= i < self.instances@.len() implies instance_ok(
                #[trigger] self.instances@[i],
                after,
            ) by {
                assert(instance_ok(old(self).instances@[i], before));
            }
        }
        handle
    }

    /// Adds an instance to the heap, and gives back its handle.
    pub(crate) fn add_instance(&mut self, instance: LoxInstance) -> (handle: usize)
        requires
            old(self).heap_ok(),
            frames_ok(old(self).frames@, old(self).shape()),
            instance_ok(instance, old(self).shape()),
        ensures
            final(self).heap_ok(),
            frames_ok(final(self).frames@, final(self).shape()),
            extends(old(self).shape(), final(self).shape()),
            final(self).shape().parents == old(self).shape().parents,
            handle == old(self).instances@.len(),
            final(self).instances@ == old(self).instances@.push(instance),
            final(self).environments == old(self).environments,
            final(self).callables == old(self).callables,
            final(self).frames == old(self).frames,
            final(self).control == old(self).control,
    {
        let handle = self.instances.len();
        self.instances.push(instance);
        proof {
            let before = old(self).shape();
            let after = self.shape();
            lemma_objects_extend(before, after);
            lemma_frames_extend(self.frames@, before, after);
            assert forall|i: int| 0 <= i < self.environments@.len() implies table_ok(
                (#[trigger] self.environments@[i]).values.map(),
                after,
            ) by {
                assert(table_ok(old(self).environments@[i].values.map(), before));
            }
            assert forall|i: int| 0 <= i < self.callables@.len() implies callable_ok(
                #[trigger] self.callables@[i],
                after,
            ) by {
                assert(callable_ok(old(self).callables@[i], before));
            }
            assert forall|i: int| 0 <= i < self.instances@.len() implies instance_ok(
                #[trigger] self.instances@[i],
                after,
            ) by {
                if i < handle {
                    assert(instance_ok(old(self).instances@[i], before));
                }
            }
        }
        handle
    }

    /// Reports a runtime error at a token, and turns to leaving the frames.
    pub(crate) fn fail(&mut self, token: &Token, message: &str, reporter: &mut ErrorReporter) -> (action:
        Action)
        requires
            old(self).heap_ok(),
            frames_ok(old(self).frames@, old(self).shape()),
        ensures
            final(self).wf(),
            fails(
                old(self).heap(),
                *final(self),
                old(self).frames@,
                token@,
                message@,
                action,
                old(reporter)@,
                final(reporter)@,
            ),
    {
        reporter.runtime_error_on_token(token, message);
        self.control = Control::Unwind(UnwindType::Error);
        Action::Continue
    }

    /// Goes on with a new control, on the same heap and frames.
    pub(crate) fn go(&mut self, control: Control) -> (action: Action)
        requires
            old(self).heap_ok(),
            frames_ok(old(self).frames@, old(self).shape()),
            control_ok(control, old(self).shape()),
        ensures
            final(self).wf(),
            moves(old(self).heap(), *final(self), control, old(self).frames@),
            action is Continue,
    {
        self.control = control;
        Action::Continue
    }
}

} // verus!
