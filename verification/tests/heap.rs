use std::rc::Rc;

use lox_rs::callable::{Callable, LoxCallable, NativeClock};
use lox_rs::environment::Environment;
use lox_rs::error_reporter::ErrorReporter;
use lox_rs::interpreter::Interpreter;
use lox_rs::lox_class::{LoxClass, LoxInstance};
use lox_rs::machine::{Action, Control, Event};
use lox_rs::table::Table;
use lox_rs::token::{Token, Type};
use lox_rs::value::Value;

fn name(text: &str) -> Token {
    Token::new(Type::Identifier, text.to_string(), 1)
}

fn chain() -> Vec<Environment> {
    let mut global = Environment::new();
    global.define("g".to_string(), Value::Number(1));
    global.define("shadowed".to_string(), Value::Number(2));
    let mut middle = Environment::with_enclosing_scope(0);
    middle.define("m".to_string(), Value::Number(3));
    middle.define("shadowed".to_string(), Value::Number(4));
    let mut inner = Environment::with_enclosing_scope(1);
    inner.define("i".to_string(), Value::Number(5));
    vec![global, middle, inner]
}

#[test]
fn get_walks_outward() {
    let environments = chain();
    let mut reporter = ErrorReporter::new();
    assert_eq!(Environment::get(&environments, 2, &name("i"), &mut reporter), Some(Value::Number(5)));
    assert_eq!(Environment::get(&environments, 2, &name("m"), &mut reporter), Some(Value::Number(3)));
    assert_eq!(Environment::get(&environments, 2, &name("g"), &mut reporter), Some(Value::Number(1)));
    assert_eq!(
        Environment::get(&environments, 2, &name("shadowed"), &mut reporter),
        Some(Value::Number(4))
    );
    assert_eq!(
        Environment::get(&environments, 0, &name("shadowed"), &mut reporter),
        Some(Value::Number(2))
    );
    assert!(reporter.reports.is_empty());
    assert_eq!(Environment::get(&environments, 1, &name("i"), &mut reporter), None);
    assert!(reporter.had_runtime_error);
    assert_eq!(reporter.reports[0].render(), "[line 1] Error at 'i': Undefined variable 'i'.");
}

#[test]
fn get_at_starts_at_the_distance() {
    let environments = chain();
    let mut reporter = ErrorReporter::new();
    assert_eq!(
        Environment::get_at(&environments, 2, Some(0), &name("shadowed"), &mut reporter),
        Some(Value::Number(4))
    );
    assert_eq!(
        Environment::get_at(&environments, 2, Some(1), &name("shadowed"), &mut reporter),
        Some(Value::Number(4))
    );
    assert_eq!(
        Environment::get_at(&environments, 2, Some(2), &name("shadowed"), &mut reporter),
        Some(Value::Number(2))
    );
    assert_eq!(
        Environment::get_at(&environments, 2, None, &name("shadowed"), &mut reporter),
        Some(Value::Number(2))
    );
    assert!(reporter.reports.is_empty());
    assert_eq!(Environment::get_at(&environments, 2, None, &name("m"), &mut reporter), None);
    assert_eq!(Environment::get_at(&environments, 2, Some(1), &name("i"), &mut reporter), None);
    assert_eq!(reporter.reports.len(), 2);
    assert_eq!(Environment::start(&environments, 2, Some(1)), 1);
    assert_eq!(Environment::start(&environments, 2, Some(2)), 0);
    assert_eq!(Environment::start(&environments, 2, None), 0);
    assert_eq!(Environment::start(&environments, 1, Some(0)), 1);
}

#[test]
fn assign_writes_where_the_name_lives() {
    let mut environments = chain();
    let mut reporter = ErrorReporter::new();
    let done = Environment::assign(&mut environments, 2, name("g"), Value::Number(9), &mut reporter);
    assert_eq!(done, Some(()));
    assert_eq!(environments[0].values.get(&"g".to_string()), Some(&Value::Number(9)));
    assert!(!environments[2].values.contains_key(&"g".to_string()));
    let done =
        Environment::assign(&mut environments, 2, name("shadowed"), Value::Nil, &mut reporter);
    assert_eq!(done, Some(()));
    assert_eq!(environments[1].values.get(&"shadowed".to_string()), Some(&Value::Nil));
    assert_eq!(environments[0].values.get(&"shadowed".to_string()), Some(&Value::Number(2)));
    assert!(reporter.reports.is_empty());
    let done = Environment::assign(&mut environments, 2, name("none"), Value::Nil, &mut reporter);
    assert_eq!(done, None);
    assert_eq!(reporter.reports[0].render(), "[line 1] Error at 'none': Undefined variable 'none'.");
}

#[test]
fn assign_at_and_assign_global() {
    let mut environments = chain();
    let mut reporter = ErrorReporter::new();
    let done = Environment::assign_at(
        &mut environments,
        2,
        Some(2),
        name("shadowed"),
        Value::True,
        &mut reporter,
    );
    assert_eq!(done, Some(()));
    assert_eq!(environments[0].values.get(&"shadowed".to_string()), Some(&Value::True));
    assert_eq!(environments[1].values.get(&"shadowed".to_string()), Some(&Value::Number(4)));
    let done =
        Environment::assign_global(&mut environments, 2, name("g"), Value::False, &mut reporter);
    assert_eq!(done, Some(()));
    assert_eq!(environments[0].values.get(&"g".to_string()), Some(&Value::False));
    let done =
        Environment::assign_global(&mut environments, 2, name("m"), Value::False, &mut reporter);
    assert_eq!(done, None);
    let done = Environment::assign_at(
        &mut environments,
        2,
        None,
        name("i"),
        Value::False,
        &mut reporter,
    );
    assert_eq!(done, None);
    assert_eq!(reporter.reports.len(), 2);
}

#[test]
fn new_environment_is_empty() {
    let environment = Environment::new();
    assert!(environment.enclosing.is_none());
    assert!(!environment.values.contains_key(&"a".to_string()));
    let inner = Environment::with_enclosing_scope(7);
    assert_eq!(inner.enclosing, Some(7));
}

#[test]
fn new_interpreter_knows_the_clock() {
    let mut interpreter = Interpreter::new();
    assert_eq!(interpreter.environments.len(), 1);
    assert_eq!(
        interpreter.environments[0].values.get(&"clock".to_string()),
        Some(&Value::Callable(0))
    );
    assert_eq!(interpreter.callables.len(), 1);
    assert!(matches!(interpreter.callables[0], Callable::Native(_)));
    assert_eq!(interpreter.callables[0].arity(), 0);
    assert!(interpreter.instances.is_empty());
    assert!(interpreter.frames.is_empty());
    assert!(matches!(interpreter.control, Control::Idle));
    let mut reporter = ErrorReporter::new();
    assert!(matches!(interpreter.step(Event::Resume, &mut reporter), Action::Finished));
    assert!(matches!(interpreter.step(Event::Number(1), &mut reporter), Action::Finished));
    assert!(reporter.reports.is_empty());
}

#[test]
fn interpret_starts_a_run_of_an_empty_program() {
    let mut interpreter = Interpreter::new();
    let mut reporter = ErrorReporter::new();
    interpreter.interpret(Vec::new());
    assert_eq!(interpreter.frames.len(), 1);
    assert!(matches!(interpreter.step(Event::Resume, &mut reporter), Action::Continue));
    assert!(matches!(interpreter.step(Event::Resume, &mut reporter), Action::Finished));
    assert!(matches!(interpreter.control, Control::Idle));
    assert!(interpreter.frames.is_empty());
}

#[test]
fn arity_of_callables() {
    let clock = NativeClock::new();
    assert_eq!(clock.arity(), 0);
    let params = vec![name("a"), name("b")];
    let function = LoxCallable::new(name("f"), Rc::new(params), Rc::new(Vec::new()), 0, false);
    assert_eq!(function.arity(), 2);
    assert_eq!(Callable::Function(function.rebound(3)).arity(), 2);
    assert_eq!(function.rebound(3).closure, 3);
    assert_eq!(function.rebound(3).name, function.name);
    let mut methods: Table<LoxCallable> = Table::new();
    let empty = LoxClass::new("Empty".to_string(), Table::new());
    assert_eq!(empty.arity(), 0);
    assert!(empty.find_method(&"init".to_string()).is_none());
    methods.insert(
        "init".to_string(),
        LoxCallable::new(name("init"), Rc::new(vec![name("x")]), Rc::new(Vec::new()), 0, true),
    );
    let class = LoxClass::new("Point".to_string(), methods);
    assert_eq!(class.arity(), 1);
    assert!(class.find_method(&"init".to_string()).is_some());
    assert!(class.find_method(&"other".to_string()).is_none());
    assert_eq!(class.to_string(), "Point");
    assert_eq!(Callable::Class(Rc::new(class)).arity(), 1);
}

#[test]
fn instance_fields() {
    let class = Rc::new(LoxClass::new("Point".to_string(), Table::new()));
    let mut instance = LoxInstance::new(class);
    assert!(!instance.fields.contains_key(&"x".to_string()));
    instance.set(&name("x"), Value::Number(1));
    instance.set(&name("x"), Value::Number(2));
    assert_eq!(instance.fields.get(&"x".to_string()), Some(&Value::Number(2)));
    assert_eq!(instance.to_string(), "Point instance");
}

#[test]
fn reading_a_property_binds_a_method() {
    let mut interpreter = Interpreter::new();
    let mut reporter = ErrorReporter::new();
    let mut methods: Table<LoxCallable> = Table::new();
    methods.insert(
        "m".to_string(),
        LoxCallable::new(name("m"), Rc::new(Vec::new()), Rc::new(Vec::new()), 0, false),
    );
    let class = Rc::new(LoxClass::new("C".to_string(), methods));
    let mut instance = LoxInstance::new(class);
    instance.set(&name("field"), Value::True);
    interpreter.instances.push(instance);
    let field = LoxInstance::get(&mut interpreter, 0, &name("field"), &mut reporter);
    assert_eq!(field, Some(Value::True));
    assert_eq!(interpreter.callables.len(), 1);
    let first = LoxInstance::get(&mut interpreter, 0, &name("m"), &mut reporter);
    let second = LoxInstance::get(&mut interpreter, 0, &name("m"), &mut reporter);
    assert_eq!(first, Some(Value::Callable(1)));
    assert_eq!(second, Some(Value::Callable(2)));
    assert_eq!(interpreter.environments.len(), 3);
    for handle in [1, 2] {
        match &interpreter.callables[handle] {
            Callable::Function(function) => {
                assert_eq!(function.closure, handle);
                assert_eq!(interpreter.environments[handle].enclosing, Some(0));
                assert_eq!(
                    interpreter.environments[handle].values.get(&"this".to_string()),
                    Some(&Value::Instance(0))
                );
            }
            _ => panic!("no function"),
        }
    }
    assert!(reporter.reports.is_empty());
    let missing = LoxInstance::get(&mut interpreter, 0, &name("none"), &mut reporter);
    assert_eq!(missing, None);
    assert_eq!(reporter.reports[0].render(), "[line 1] Error at 'none': Undefined property none.");
    assert!(reporter.had_runtime_error);
}
